//! Sets of byte strings, held in increasing order, so that two sets with the
//! same members are the same sequence.

use crate::lex::{lemma_lex_irreflexive, lemma_lex_total, lemma_lex_transitive, lex_lt, rank, Rank};
use vstd::prelude::*;

verus! {

/// Copies a byte string.
pub fn copy_bytes(bytes: &[u8]) -> (copy: Vec<u8>)
    ensures
        copy@ == bytes@,
{
    let mut copy: Vec<u8> = Vec::new();
    let mut i: usize = 0;
    while i < bytes.len()
        invariant
            i <= bytes.len(),
            copy@ == bytes@.take(i as int),
        decreases bytes.len() - i,
    {
        copy.push(bytes[i]);
        assert(bytes@.take(i + 1) =~= bytes@.take(i as int).push(bytes@[i as int]));
        i += 1;
    }
    assert(bytes@.take(i as int) =~= bytes@);
    copy
}

/// Each key comes strictly before every later one.
pub open spec fn strictly_increasing(keys: Seq<Seq<u8>>) -> bool {
    forall|i: int, j: int| 0 <= i < j < keys.len() ==> lex_lt(#[trigger] keys[i], #[trigger] keys[j])
}

/// `sorted` holds the members of `keys`, each once, in increasing order.
pub open spec fn is_sorted_form_of(sorted: Seq<Seq<u8>>, keys: Seq<Seq<u8>>) -> bool {
    &&& strictly_increasing(sorted)
    &&& forall|k: Seq<u8>| sorted.contains(k) <==> keys.contains(k)
}

/// The members of `keys`, each once, in increasing order.
pub open spec fn sorted_form(keys: Seq<Seq<u8>>) -> Seq<Seq<u8>> {
    choose|sorted: Seq<Seq<u8>>| is_sorted_form_of(sorted, keys)
}

/// The byte strings that a vector of vectors holds.
pub open spec fn deep(keys: Seq<Vec<u8>>) -> Seq<Seq<u8>> {
    Seq::new(keys.len(), |i: int| keys[i]@)
}

/// A strictly increasing sequence holds no key twice.
pub proof fn lemma_increasing_no_duplicates(keys: Seq<Seq<u8>>, i: int, j: int)
    requires
        strictly_increasing(keys),
        0 <= i < keys.len(),
        0 <= j < keys.len(),
        keys[i] == keys[j],
    ensures
        i == j,
{
    lemma_lex_irreflexive(keys[i]);
    if i < j {
        assert(lex_lt(keys[i], keys[j]));
    } else if j < i {
        assert(lex_lt(keys[j], keys[i]));
    }
}

/// Two strictly increasing sequences with the same members are equal.
pub proof fn lemma_increasing_unique(a: Seq<Seq<u8>>, b: Seq<Seq<u8>>)
    requires
        strictly_increasing(a),
        strictly_increasing(b),
        forall|k: Seq<u8>| a.contains(k) <==> b.contains(k),
    ensures
        a == b,
    decreases a.len(),
{
    if a.len() == 0 {
        if b.len() > 0 {
            assert(b.contains(b[0]));
            assert(a.contains(b[0]));
        }
        assert(a =~= b);
    } else if b.len() == 0 {
        assert(a.contains(a[0]));
        assert(b.contains(a[0]));
    } else {
        assert(a.contains(a[0]));
        assert(b.contains(b[0]));
        let j = choose|j: int| 0 <= j < b.len() && b[j] == a[0];
        let i = choose|i: int| 0 <= i < a.len() && a[i] == b[0];
        if j > 0 {
            // b[0] < b[j] == a[0] <= a[i] == b[0]
            assert(lex_lt(b[0], b[j]));
            if i > 0 {
                assert(lex_lt(a[0], a[i]));
                lemma_lex_transitive(b[0], a[0], b[0]);
            }
            lemma_lex_irreflexive(b[0]);
        }
        assert(a[0] == b[0]);
        let ta = a.drop_first();
        let tb = b.drop_first();
        assert forall|k: Seq<u8>| ta.contains(k) <==> tb.contains(k) by {
            if ta.contains(k) {
                let x = choose|x: int| 0 <= x < ta.len() && ta[x] == k;
                assert(a[x + 1] == k);
                assert(a.contains(k));
                let y = choose|y: int| 0 <= y < b.len() && b[y] == k;
                assert(lex_lt(a[0], a[x + 1]));
                lemma_lex_irreflexive(k);
                assert(y != 0);
                assert(tb[y - 1] == k);
            }
            if tb.contains(k) {
                let y = choose|y: int| 0 <= y < tb.len() && tb[y] == k;
                assert(b[y + 1] == k);
                assert(b.contains(k));
                let x = choose|x: int| 0 <= x < a.len() && a[x] == k;
                assert(lex_lt(b[0], b[y + 1]));
                lemma_lex_irreflexive(k);
                assert(x != 0);
                assert(ta[x - 1] == k);
            }
        }
        assert(strictly_increasing(ta)) by {
            assert forall|p: int, q: int| 0 <= p < q < ta.len() implies lex_lt(
                #[trigger] ta[p],
                #[trigger] ta[q],
            ) by {
                assert(lex_lt(a[p + 1], a[q + 1]));
            }
        }
        assert(strictly_increasing(tb)) by {
            assert forall|p: int, q: int| 0 <= p < q < tb.len() implies lex_lt(
                #[trigger] tb[p],
                #[trigger] tb[q],
            ) by {
                assert(lex_lt(b[p + 1], b[q + 1]));
            }
        }
        lemma_increasing_unique(ta, tb);
        assert(a =~= seq![a[0]] + ta);
        assert(b =~= seq![b[0]] + tb);
    }
}

/// The map that pairs each key with the value at the same place.
pub open spec fn paired<V>(labels: Seq<Seq<u8>>, sets: Seq<V>) -> Map<Seq<u8>, V> {
    Map::new(|label: Seq<u8>| labels.contains(label), |label: Seq<u8>| sets[labels.index_of(label)])
}

/// In a pairing without repeated keys, each key has the value at its place.
pub proof fn lemma_paired_at<V>(labels: Seq<Seq<u8>>, sets: Seq<V>, i: int)
    requires
        strictly_increasing(labels),
        0 <= i < labels.len(),
    ensures
        paired(labels, sets).dom().contains(labels[i]),
        paired(labels, sets)[labels[i]] == sets[i],
{
    assert(labels.contains(labels[i]));
    let j = labels.index_of(labels[i]);
    lemma_increasing_no_duplicates(labels, i, j);
}

/// Pairing after a new key was put in at a place.
pub proof fn lemma_paired_insert<V>(
    labels: Seq<Seq<u8>>,
    sets: Seq<V>,
    i: int,
    label: Seq<u8>,
    set: V,
)
    requires
        strictly_increasing(labels),
        strictly_increasing(labels.insert(i, label)),
        labels.len() == sets.len(),
        0 <= i <= labels.len(),
        !labels.contains(label),
    ensures
        paired(labels.insert(i, label), sets.insert(i, set)) == paired(labels, sets).insert(
            label,
            set,
        ),
{
    let l2 = labels.insert(i, label);
    let s2 = sets.insert(i, set);
    let left = paired(l2, s2);
    let right = paired(labels, sets).insert(label, set);
    assert forall|k: Seq<u8>| left.dom().contains(k) <==> right.dom().contains(k) by {
        if labels.contains(k) {
            let j = choose|j: int| 0 <= j < labels.len() && labels[j] == k;
            if j < i {
                assert(l2[j] == k);
            } else {
                assert(l2[j + 1] == k);
            }
        }
        if k == label {
            assert(l2[i] == k);
        }
        if l2.contains(k) {
            let j = choose|j: int| 0 <= j < l2.len() && l2[j] == k;
            if j < i {
                assert(labels[j] == k);
            } else if j > i {
                assert(labels[j - 1] == k);
            }
        }
    }
    assert forall|k: Seq<u8>| left.dom().contains(k) implies left[k] == right[k] by {
        let j = choose|j: int| 0 <= j < l2.len() && l2[j] == k;
        lemma_paired_at(l2, s2, j);
        if j < i {
            lemma_paired_at(labels, sets, j);
        } else if j > i {
            lemma_paired_at(labels, sets, j - 1);
        }
    }
    assert(left =~= right);
}

/// Pairing after the value at one place was replaced.
pub proof fn lemma_paired_update<V>(
    labels: Seq<Seq<u8>>,
    sets: Seq<V>,
    i: int,
    set: V,
)
    requires
        strictly_increasing(labels),
        labels.len() == sets.len(),
        0 <= i < labels.len(),
    ensures
        paired(labels, sets.update(i, set)) == paired(labels, sets).insert(labels[i], set),
{
    let s2 = sets.update(i, set);
    let left = paired(labels, s2);
    let right = paired(labels, sets).insert(labels[i], set);
    assert forall|k: Seq<u8>| left.dom().contains(k) <==> right.dom().contains(k) by {
        if k == labels[i] {
            assert(labels.contains(k));
        }
    }
    assert forall|k: Seq<u8>| left.dom().contains(k) implies left[k] == right[k] by {
        let j = choose|j: int| 0 <= j < labels.len() && labels[j] == k;
        lemma_paired_at(labels, s2, j);
        lemma_paired_at(labels, sets, j);
        if k == labels[i] {
            lemma_increasing_no_duplicates(labels, i, j);
        }
    }
    assert(left =~= right);
}

/// There is one sorted form only.
pub proof fn lemma_sorted_form_unique(sorted: Seq<Seq<u8>>, keys: Seq<Seq<u8>>)
    requires
        is_sorted_form_of(sorted, keys),
    ensures
        sorted_form(keys) == sorted,
{
    lemma_increasing_unique(sorted_form(keys), sorted);
}

/// A set of byte strings.
#[derive(Debug)]
pub struct KeySet {
    items: Vec<Vec<u8>>,
}

impl View for KeySet {
    type V = Set<Seq<u8>>;

    open spec fn view(&self) -> Set<Seq<u8>> {
        Set::new(|k: Seq<u8>| self.keys().contains(k))
    }
}

impl KeySet {
    /// The members in the order in which they are held.
    pub closed spec fn keys(&self) -> Seq<Seq<u8>> {
        deep(self.items@)
    }

    /// The members are held in strictly increasing order.
    pub open spec fn wf(&self) -> bool {
        strictly_increasing(self.keys())
    }

    /// The empty set.
    pub fn new() -> (set: KeySet)
        ensures
            set.wf(),
            set@ == Set::<Seq<u8>>::empty(),
            set.keys() == Seq::<Seq<u8>>::empty(),
    {
        let set = KeySet { items: Vec::new() };
        assert(set.keys() =~= Seq::<Seq<u8>>::empty());
        assert(set@ =~= Set::<Seq<u8>>::empty());
        set
    }

    /// The number of members.
    pub fn len(&self) -> (n: usize)
        ensures
            n == self.keys().len(),
    {
        self.items.len()
    }

    /// The member at place `i` of the sorted order.
    pub fn get(&self, i: usize) -> (key: &Vec<u8>)
        requires
            i < self.keys().len(),
        ensures
            key@ == self.keys()[i as int],
    {
        &self.items[i]
    }

    /// The place of the first member that does not come before `key`.
    pub fn position(&self, key: &[u8]) -> (p: usize)
        requires
            self.wf(),
        ensures
            p <= self.keys().len(),
            forall|j: int| 0 <= j < p ==> lex_lt(#[trigger] self.keys()[j], key@),
            forall|j: int| p <= j < self.keys().len() ==> !lex_lt(#[trigger] self.keys()[j], key@),
    {
        let mut p: usize = 0;
        while p < self.items.len()
            invariant
                self.wf(),
                p <= self.items.len(),
                forall|j: int| 0 <= j < p ==> lex_lt(#[trigger] self.keys()[j], key@),
            decreases self.items.len() - p,
        {
            if rank(self.items[p].as_slice(), key) != Rank::Before {
                assert(!lex_lt(self.keys()[p as int], key@));
                assert forall|j: int| p <= j < self.keys().len() implies !lex_lt(
                    #[trigger] self.keys()[j],
                    key@,
                ) by {
                    if j > p && lex_lt(self.keys()[j], key@) {
                        assert(lex_lt(self.keys()[p as int], self.keys()[j]));
                        lemma_lex_transitive(self.keys()[p as int], self.keys()[j], key@);
                    }
                }
                return p;
            }
            p += 1;
        }
        p
    }

    /// The place of `key` in the sorted order, if it is a member.
    pub fn index_of(&self, key: &[u8]) -> (place: Option<usize>)
        requires
            self.wf(),
        ensures
            match place {
                Some(p) => p < self.keys().len() && self.keys()[p as int] == key@,
                None => !self.keys().contains(key@),
            },
    {
        let p = self.position(key);
        if p < self.items.len() && rank(self.items[p].as_slice(), key) == Rank::Same {
            Some(p)
        } else {
            proof {
                if self.keys().contains(key@) {
                    let j = choose|j: int| 0 <= j < self.keys().len() && self.keys()[j] == key@;
                    lemma_lex_irreflexive(key@);
                    if j > p {
                        assert(lex_lt(self.keys()[p as int], self.keys()[j]));
                    }
                }
            }
            None
        }
    }

    /// Whether `key` is a member.
    pub fn contains(&self, key: &[u8]) -> (found: bool)
        requires
            self.wf(),
        ensures
            found == self@.contains(key@),
    {
        self.index_of(key).is_some()
    }

    /// Adds `key` to the set. Hands back its place in the sorted order, and
    /// whether it was new. A new key moves the members from its place on up by
    /// one.
    pub fn insert(&mut self, key: Vec<u8>) -> (placed: (usize, bool))
        requires
            old(self).wf(),
        ensures
            final(self).wf(),
            final(self)@ == old(self)@.insert(key@),
            placed.1 == !old(self)@.contains(key@),
            placed.0 <= old(self).keys().len(),
            placed.0 < final(self).keys().len(),
            final(self).keys()[placed.0 as int] == key@,
            placed.1 ==> final(self).keys() == old(self).keys().insert(placed.0 as int, key@),
            !placed.1 ==> final(self).keys() == old(self).keys(),
    {
        let p = self.position(key.as_slice());
        let ghost before = self.keys();
        if p < self.items.len() && rank(self.items[p].as_slice(), key.as_slice()) == Rank::Same {
            assert(before[p as int] == key@);
            assert(self@ =~= old(self)@.insert(key@));
            return (p, false);
        }
        proof {
            lemma_lex_irreflexive(key@);
            if before.contains(key@) {
                let j = choose|j: int| 0 <= j < before.len() && before[j] == key@;
                if j > p {
                    assert(lex_lt(before[p as int], before[j]));
                }
            }
        }
        let ghost k0 = key@;
        self.items.insert(p, key);
        proof {
            let after = self.keys();
            assert(after =~= before.insert(p as int, k0));
            assert forall|i: int, j: int| 0 <= i < j < after.len() implies lex_lt(
                #[trigger] after[i],
                #[trigger] after[j],
            ) by {
                if j < p {
                    assert(lex_lt(before[i], before[j]));
                } else if j == p {
                    assert(lex_lt(before[i], k0));
                } else if i == p {
                    lemma_lex_total(before[j - 1], k0);
                } else if i < p {
                    assert(lex_lt(before[i], before[j - 1]));
                } else {
                    assert(lex_lt(before[i - 1], before[j - 1]));
                }
            }
            assert forall|k: Seq<u8>| after.contains(k) <==> (before.contains(k) || k == k0) by {
                if before.contains(k) {
                    let j = choose|j: int| 0 <= j < before.len() && before[j] == k;
                    if j < p {
                        assert(after[j] == k);
                    } else {
                        assert(after[j + 1] == k);
                    }
                }
                if k == k0 {
                    assert(after[p as int] == k);
                }
                if after.contains(k) {
                    let j = choose|j: int| 0 <= j < after.len() && after[j] == k;
                    if j < p {
                        assert(before[j] == k);
                    } else if j > p {
                        assert(before[j - 1] == k);
                    }
                }
            }
            assert(self@ =~= old(self)@.insert(k0));
        }
        (p, true)
    }

    /// The set of the byte strings in `keys`.
    pub fn from_vec(keys: &Vec<Vec<u8>>) -> (set: KeySet)
        ensures
            set.wf(),
            set.keys() == sorted_form(deep(keys@)),
            forall|k: Seq<u8>| set@.contains(k) <==> deep(keys@).contains(k),
    {
        let mut set = KeySet::new();
        let mut n: usize = 0;
        while n < keys.len()
            invariant
                n <= keys.len(),
                set.wf(),
                forall|k: Seq<u8>|
                    set@.contains(k) <==> exists|i: int| 0 <= i < n && keys@[i]@ == k,
            decreases keys.len() - n,
        {
            let ghost prev = set@;
            set.insert(copy_bytes(keys[n].as_slice()));
            assert forall|k: Seq<u8>| set@.contains(k) <==> exists|i: int|
                0 <= i < n + 1 && keys@[i]@ == k by {
                if prev.contains(k) {
                    let i = choose|i: int| 0 <= i < n && keys@[i]@ == k;
                    assert(0 <= i < n + 1 && keys@[i]@ == k);
                }
                if k == keys@[n as int]@ {
                    assert(0 <= n < n + 1 && keys@[n as int]@ == k);
                }
            }
            n += 1;
        }
        proof {
            let all = deep(keys@);
            assert forall|k: Seq<u8>| set.keys().contains(k) <==> all.contains(k) by {
                assert(set@.contains(k) == set.keys().contains(k));
                if all.contains(k) {
                    let i = choose|i: int| 0 <= i < all.len() && all[i] == k;
                    assert(0 <= i < n && keys@[i]@ == k);
                }
                if set@.contains(k) {
                    let i = choose|i: int| 0 <= i < n && keys@[i]@ == k;
                    assert(all[i] == k);
                }
            }
            lemma_sorted_form_unique(set.keys(), all);
        }
        set
    }

    /// The members in increasing order.
    pub fn to_vec(&self) -> (keys: Vec<Vec<u8>>)
        ensures
            deep(keys@) == self.keys(),
    {
        let mut keys: Vec<Vec<u8>> = Vec::new();
        let mut n: usize = 0;
        while n < self.items.len()
            invariant
                n <= self.items.len(),
                keys@.len() == n,
                forall|i: int| 0 <= i < n ==> keys@[i]@ == self.keys()[i],
            decreases self.items.len() - n,
        {
            keys.push(copy_bytes(self.items[n].as_slice()));
            n += 1;
        }
        assert(deep(keys@) =~= self.keys());
        keys
    }

    /// The members of both sets.
    pub fn union(&self, other: &KeySet) -> (both: KeySet)
        requires
            self.wf(),
            other.wf(),
        ensures
            both.wf(),
            both@ == self@.union(other@),
    {
        let mut both = self.clone();
        let mut n: usize = 0;
        while n < other.items.len()
            invariant
                n <= other.items.len(),
                both.wf(),
                forall|k: Seq<u8>|
                    both@.contains(k) <==> (self@.contains(k) || exists|i: int|
                        0 <= i < n && other.keys()[i] == k),
            decreases other.items.len() - n,
        {
            let ghost prev = both@;
            both.insert(copy_bytes(other.items[n].as_slice()));
            assert forall|k: Seq<u8>| both@.contains(k) <==> (self@.contains(k) || exists|i: int|
                0 <= i < n + 1 && other.keys()[i] == k) by {
                if prev.contains(k) && !self@.contains(k) {
                    let i = choose|i: int| 0 <= i < n && other.keys()[i] == k;
                    assert(0 <= i < n + 1 && other.keys()[i] == k);
                }
                if k == other.keys()[n as int] {
                    assert(0 <= n < n + 1 && other.keys()[n as int] == k);
                }
            }
            n += 1;
        }
        assert(both@ =~= self@.union(other@));
        both
    }

    /// Whether two sets have the same members.
    pub fn equals(&self, other: &KeySet) -> (same: bool)
        ensures
            same == (self.keys() == other.keys()),
            self.wf() && other.wf() ==> same == (self@ == other@),
    {
        proof {
            if self@ == other@ && self.wf() && other.wf() {
                assert forall|k: Seq<u8>| self.keys().contains(k) <==> other.keys().contains(
                    k,
                ) by {
                    assert(self@.contains(k) == other@.contains(k));
                }
                lemma_increasing_unique(self.keys(), other.keys());
            }
        }
        if self.items.len() != other.items.len() {
            assert(self.keys().len() != other.keys().len());
            return false;
        }
        let mut n: usize = 0;
        while n < self.items.len()
            invariant
                n <= self.items.len(),
                self.items.len() == other.items.len(),
                self.wf() && other.wf() && self@ == other@ ==> self.keys() == other.keys(),
                forall|i: int| 0 <= i < n ==> self.keys()[i] == other.keys()[i],
            decreases self.items.len() - n,
        {
            if rank(self.items[n].as_slice(), other.items[n].as_slice()) != Rank::Same {
                assert(self.keys()[n as int] != other.keys()[n as int]);
                return false;
            }
            n += 1;
        }
        assert(self.keys() =~= other.keys());
        true
    }
}

impl Clone for KeySet {
    fn clone(&self) -> (copy: Self)
        ensures
            copy.keys() == self.keys(),
            copy@ == self@,
    {
        let copy = KeySet { items: self.to_vec() };
        assert(copy.keys() =~= deep(copy.items@));
        copy
    }
}

} // verus!
