//! The forest: a store that maps the label of a name to the set of content
//! identifiers written under it, and that can be merged with another forest
//! without losing anything. It is kept as a hash trie, whose nodes are shared
//! between the forest before a change and the forest after it.

use crate::accumulator::AccumulatorSetup;
use crate::cid::{Cid, CidSet};
use crate::forest::hamt::{blake3_hash, set_or_empty, Node};
use crate::cid::views;
use crate::keyset::{
    copy_bytes, deep, lemma_increasing_no_duplicates, lemma_paired_at, lemma_paired_insert, paired,
    strictly_increasing, KeySet,
};
use crate::name::Name;
use crate::utils::make_mut;
use std::sync::Arc;
use vstd::prelude::*;

pub mod bucket;
pub mod hamt;

verus! {

/// What a forest is: for each label that something was written under, the
/// identifiers written there.
pub type ForestView = Map<Seq<u8>, Set<Seq<u8>>>;

/// The identifiers under a label; none where the label is absent.
pub open spec fn cids_at(forest: ForestView, label: Seq<u8>) -> Set<Seq<u8>> {
    if forest.dom().contains(label) {
        forest[label]
    } else {
        Set::empty()
    }
}

/// The forest that holds under every label what either of two forests holds
/// there.
pub open spec fn merged(a: ForestView, b: ForestView) -> ForestView {
    Map::new(
        |label: Seq<u8>| a.dom().contains(label) || b.dom().contains(label),
        |label: Seq<u8>| cids_at(a, label).union(cids_at(b, label)),
    )
}

/// The stored form of one label of a forest with its identifiers.
#[derive(Debug)]
pub struct ForestEntrySerializable {
    pub label: Vec<u8>,
    pub cids: Vec<Cid>,
}

/// The stored form of a forest: its labels in increasing order, each with its
/// identifiers in increasing order.
#[derive(Debug)]
pub struct ForestSerializable {
    pub entries: Vec<ForestEntrySerializable>,
}

/// What a stored entry of a forest is.
pub struct ForestEntryRecord {
    pub label: Seq<u8>,
    pub cids: Seq<Seq<u8>>,
}

impl View for ForestEntrySerializable {
    type V = ForestEntryRecord;

    open spec fn view(&self) -> ForestEntryRecord {
        ForestEntryRecord { label: self.label@, cids: views(self.cids@) }
    }
}

impl View for ForestSerializable {
    type V = Seq<ForestEntryRecord>;

    open spec fn view(&self) -> Seq<ForestEntryRecord> {
        Seq::new(self.entries@.len(), |i: int| self.entries@[i]@)
    }
}

/// The labels of the entries of a record, in the order of the record.
pub open spec fn record_labels(entries: Seq<ForestEntryRecord>) -> Seq<Seq<u8>> {
    Seq::new(entries.len(), |i: int| entries[i].label)
}

/// The sets of identifiers of the entries of a record, in the order of the
/// record.
pub open spec fn record_sets(entries: Seq<ForestEntryRecord>) -> Seq<Set<Seq<u8>>> {
    Seq::new(entries.len(), |i: int| entries[i].cids.to_set())
}

/// The forest that a record is read as: the identifiers of each entry are put
/// under its label, beside what earlier entries put there. An entry without
/// identifiers puts nothing.
pub open spec fn forest_of(entries: Seq<ForestEntryRecord>) -> ForestView
    decreases entries.len(),
{
    if entries.len() == 0 {
        ForestView::empty()
    } else {
        let front = forest_of(entries.drop_last());
        let last = entries.last();
        if last.cids.len() == 0 {
            front
        } else {
            front.insert(last.label, cids_at(front, last.label).union(last.cids.to_set()))
        }
    }
}

/// `entries` is the stored form of `forest`: the labels of the forest, each
/// once, in increasing order, each with the identifiers under it, each once,
/// in increasing order.
pub open spec fn is_record_of(entries: Seq<ForestEntryRecord>, forest: ForestView) -> bool {
    &&& strictly_increasing(record_labels(entries))
    &&& forall|l: Seq<u8>| forest.dom().contains(l) <==> record_labels(entries).contains(l)
    &&& forall|i: int|
        0 <= i < entries.len() ==> {
            &&& strictly_increasing((#[trigger] entries[i]).cids)
            &&& entries[i].cids.len() > 0
            &&& entries[i].cids.to_set() == forest[entries[i].label]
        }
}

/// Entries with labels in increasing order, none without identifiers, are
/// read as the forest that pairs each label with the identifiers of its
/// entry.
pub proof fn lemma_forest_of_paired(entries: Seq<ForestEntryRecord>)
    requires
        strictly_increasing(record_labels(entries)),
        forall|i: int| 0 <= i < entries.len() ==> (#[trigger] entries[i]).cids.len() > 0,
    ensures
        forest_of(entries) == paired(record_labels(entries), record_sets(entries)),
    decreases entries.len(),
{
    let labels = record_labels(entries);
    let sets = record_sets(entries);
    if entries.len() == 0 {
        assert(forest_of(entries) =~= paired(labels, sets));
    } else {
        let front = entries.drop_last();
        let last = entries.len() - 1;
        assert(record_labels(front) =~= labels.drop_last());
        assert(record_sets(front) =~= sets.drop_last());
        assert(strictly_increasing(labels.drop_last())) by {
            assert forall|i: int, j: int|
                0 <= i < j < labels.drop_last().len() implies crate::lex::lex_lt(
                #[trigger] labels.drop_last()[i],
                #[trigger] labels.drop_last()[j],
            ) by {
                assert(crate::lex::lex_lt(labels[i], labels[j]));
            }
        }
        lemma_forest_of_paired(front);
        assert(labels.drop_last().insert(last, labels[last]) =~= labels);
        assert(sets.drop_last().insert(last, sets[last]) =~= sets);
        if labels.drop_last().contains(labels[last]) {
            let j = choose|j: int|
                0 <= j < labels.drop_last().len() && labels.drop_last()[j] == labels[last];
            lemma_increasing_no_duplicates(labels, j, last);
        }
        lemma_paired_insert(labels.drop_last(), sets.drop_last(), last, labels[last], sets[last]);
        assert(entries[last].cids.len() > 0);
        assert(cids_at(forest_of(front), labels[last]).union(sets[last]) =~= sets[last]);
    }
}

/// Reading the stored form of a forest gives the forest back.
pub proof fn law_forest_round_trip(entries: Seq<ForestEntryRecord>, forest: ForestView)
    requires
        is_record_of(entries, forest),
    ensures
        forest_of(entries) == forest,
{
    let labels = record_labels(entries);
    let sets = record_sets(entries);
    lemma_forest_of_paired(entries);
    assert forall|l: Seq<u8>| forest.dom().contains(l) implies paired(labels, sets)[l]
        == forest[l] by {
        let i = choose|i: int| 0 <= i < labels.len() && labels[i] == l;
        lemma_paired_at(labels, sets, i);
        assert(entries[i].cids.to_set() == forest[entries[i].label]);
    }
    assert(paired(labels, sets) =~= forest);
}

/// The forest of a private file system: a hash trie over the labels. A copy
/// of a forest shares its nodes with the forest it was made from until one of
/// them changes.
#[derive(Debug)]
pub struct Forest {
    root: Arc<Node>,
}

impl View for Forest {
    type V = ForestView;

    closed spec fn view(&self) -> ForestView {
        Map::new(
            |label: Seq<u8>| self.root.get(0, label) is Some,
            |label: Seq<u8>| set_or_empty(self.root.get(0, label)),
        )
    }
}

impl Forest {
    /// The trie is well formed from its root down.
    pub closed spec fn wf(&self) -> bool {
        self.root.wf(0)
    }

    /// The empty forest.
    pub fn new() -> (forest: Forest)
        ensures
            forest.wf(),
            forest@ == ForestView::empty(),
    {
        let forest = Forest { root: Arc::new(Node::empty()) };
        assert(forest@ =~= ForestView::empty());
        forest
    }

    /// Puts the members of `set` under `label`, beside what is there.
    pub fn put_set(&mut self, label: Vec<u8>, set: &CidSet)
        requires
            old(self).wf(),
            set.wf(),
            set.keys().len() > 0,
        ensures
            final(self).wf(),
            final(self)@ == old(self)@.insert(label@, cids_at(old(self)@, label@).union(set@)),
    {
        let digest = blake3_hash(label.as_slice());
        let ghost key = label@;
        let root = make_mut(&mut self.root);
        let ghost before = *root;
        root.put_set(0, &digest, label, set);
        proof {
            assert forall|l: Seq<u8>| #[trigger] before.get(0, l) == old(self).root.get(0, l) by {}
            assert(self@ =~= old(self)@.insert(key, cids_at(old(self)@, key).union(set@))) by {
                assert forall|l: Seq<u8>| #[trigger]
                    self.root.get(0, l) == if l == key {
                        Some(set_or_empty(old(self).root.get(0, l)).union(set@))
                    } else {
                        old(self).root.get(0, l)
                    } by {
                    assert(self.root.get(0, l) == root.get(0, l));
                }
                assert(self.root.get(0, key) is Some);
            }
        }
    }

    /// Puts `cid` under `label`, beside what is there: nothing is overwritten.
    pub fn put_encrypted(&mut self, label: Vec<u8>, cid: Cid)
        requires
            old(self).wf(),
        ensures
            final(self).wf(),
            final(self)@ == old(self)@.insert(label@, cids_at(old(self)@, label@).insert(cid@)),
    {
        let ghost key = cid@;
        let set = CidSet::singleton(cid);
        assert(cids_at(old(self)@, label@).union(set@) =~= cids_at(old(self)@, label@).insert(key));
        self.put_set(label, &set);
    }

    /// Puts `cid` under the label of `name`.
    pub fn put(&mut self, name: &Name, cid: Cid, setup: &AccumulatorSetup)
        requires
            old(self).wf(),
            setup.wf(),
        ensures
            final(self).wf(),
            final(self)@ == old(self)@.insert(
                name@.label_digits(setup.modulus()),
                cids_at(old(self)@, name@.label_digits(setup.modulus())).insert(cid@),
            ),
    {
        let label = name.into_accumulator(setup).into_bytes();
        self.put_encrypted(copy_bytes(label.as_slice()), cid);
    }

    /// The identifiers under `label`, if the label is there.
    pub fn get_encrypted_by_label(&self, label: &[u8]) -> (found: Option<&CidSet>)
        requires
            self.wf(),
        ensures
            match found {
                Some(set) => self@.dom().contains(label@) && set@ == self@[label@] && set.wf()
                    && set.keys().len() > 0,
                None => !self@.dom().contains(label@),
            },
    {
        let digest = blake3_hash(label);
        self.root.lookup(0, &digest, label)
    }

    /// The identifiers under the label of `name`, if the label is there.
    pub fn get_encrypted(&self, name: &Name, setup: &AccumulatorSetup) -> (found: Option<&CidSet>)
        requires
            self.wf(),
            setup.wf(),
        ensures
            match found {
                Some(set) => self@.dom().contains(name@.label_digits(setup.modulus())) && set@
                    == self@[name@.label_digits(setup.modulus())] && set.wf() && set.keys().len()
                    > 0,
                None => !self@.dom().contains(name@.label_digits(setup.modulus())),
            },
    {
        let label = name.into_accumulator(setup).into_bytes();
        self.get_encrypted_by_label(label.as_slice())
    }

    /// The identifiers under the label of `name`: none where the label is
    /// absent.
    pub fn get(&self, name: &Name, setup: &AccumulatorSetup) -> (set: CidSet)
        requires
            self.wf(),
            setup.wf(),
        ensures
            set.wf(),
            set@ == cids_at(self@, name@.label_digits(setup.modulus())),
    {
        match self.get_encrypted(name, setup) {
            Some(set) => set.clone(),
            None => CidSet::new(),
        }
    }

    /// Whether anything stands under the label of `name`.
    pub fn has(&self, name: &Name, setup: &AccumulatorSetup) -> (found: bool)
        requires
            self.wf(),
            setup.wf(),
        ensures
            found == self@.dom().contains(name@.label_digits(setup.modulus())),
    {
        self.get_encrypted(name, setup).is_some()
    }

    /// Every label of the forest, and maybe more byte strings, in no order
    /// that is promised.
    fn candidates(&self) -> (labels: Vec<Vec<u8>>)
        requires
            self.wf(),
        ensures
            forall|l: Seq<u8>| self@.dom().contains(l) ==> deep(labels@).contains(l),
    {
        let mut labels: Vec<Vec<u8>> = Vec::new();
        self.root.collect_labels(0, &mut labels);
        assert forall|l: Seq<u8>| self@.dom().contains(l) implies deep(labels@).contains(l) by {
            assert(self.root.get(0, l) is Some);
        }
        labels
    }

    /// The labels of the forest, each once, in increasing order.
    pub fn labels(&self) -> (labels: Vec<Vec<u8>>)
        requires
            self.wf(),
        ensures
            strictly_increasing(deep(labels@)),
            forall|l: Seq<u8>| self@.dom().contains(l) <==> deep(labels@).contains(l),
    {
        let found = self.candidates();
        let mut kept = KeySet::new();
        let mut n: usize = 0;
        while n < found.len()
            invariant
                n <= found@.len(),
                self.wf(),
                kept.wf(),
                forall|l: Seq<u8>|
                    kept@.contains(l) <==> self@.dom().contains(l) && exists|j: int|
                        0 <= j < n && deep(found@)[j] == l,
            decreases found@.len() - n,
        {
            let ghost before = kept@;
            let ghost key = deep(found@)[n as int];
            assert(key == found@[n as int]@);
            if self.get_encrypted_by_label(found[n].as_slice()).is_some() {
                kept.insert(copy_bytes(found[n].as_slice()));
            }
            proof {
                assert forall|l: Seq<u8>|
                    kept@.contains(l) <==> self@.dom().contains(l) && exists|j: int|
                        0 <= j < n + 1 && deep(found@)[j] == l by {
                    if before.contains(l) {
                        let j = choose|j: int| 0 <= j < n && deep(found@)[j] == l;
                        assert(0 <= j < n + 1 && deep(found@)[j] == l);
                    }
                    if self@.dom().contains(l) && exists|j: int|
                        0 <= j < n + 1 && deep(found@)[j] == l {
                        let j = choose|j: int| 0 <= j < n + 1 && deep(found@)[j] == l;
                        if j < n {
                            assert(0 <= j < n && deep(found@)[j] == l);
                        }
                    }
                }
            }
            n += 1;
        }
        let labels = kept.to_vec();
        proof {
            assert forall|l: Seq<u8>| self@.dom().contains(l) <==> deep(labels@).contains(l) by {
                assert(kept@.contains(l) == kept.keys().contains(l));
                if self@.dom().contains(l) {
                    let j = choose|j: int| 0 <= j < deep(found@).len() && deep(found@)[j] == l;
                    assert(0 <= j < n && deep(found@)[j] == l);
                }
            }
        }
        labels
    }

    /// The stored form of the forest.
    pub fn to_serializable(&self) -> (record: ForestSerializable)
        requires
            self.wf(),
        ensures
            is_record_of(record@, self@),
    {
        let labels = self.labels();
        let mut entries: Vec<ForestEntrySerializable> = Vec::new();
        let mut n: usize = 0;
        while n < labels.len()
            invariant
                n <= labels@.len(),
                self.wf(),
                strictly_increasing(deep(labels@)),
                forall|l: Seq<u8>| self@.dom().contains(l) <==> deep(labels@).contains(l),
                entries@.len() == n,
                forall|i: int|
                    0 <= i < n ==> {
                        &&& (#[trigger] entries@[i])@.label == deep(labels@)[i]
                        &&& strictly_increasing(entries@[i]@.cids)
                        &&& entries@[i]@.cids.len() > 0
                        &&& entries@[i]@.cids.to_set() == self@[deep(labels@)[i]]
                    },
            decreases labels@.len() - n,
        {
            let ghost key = deep(labels@)[n as int];
            assert(key == labels@[n as int]@);
            assert(deep(labels@).contains(key));
            let cids = match self.get_encrypted_by_label(labels[n].as_slice()) {
                Some(set) => {
                    let cids = set.to_vec();
                    assert(views(cids@).to_set() =~= set@);
                    cids
                },
                // Every label that is listed stands in the forest.
                None => vstd::pervasive::unreached(),
            };
            entries.push(
                ForestEntrySerializable { label: copy_bytes(labels[n].as_slice()), cids },
            );
            n += 1;
        }
        let record = ForestSerializable { entries };
        proof {
            assert(record_labels(record@) =~= deep(labels@));
            assert forall|i: int| 0 <= i < record@.len() implies {
                &&& strictly_increasing((#[trigger] record@[i]).cids)
                &&& record@[i].cids.len() > 0
                &&& record@[i].cids.to_set() == self@[record@[i].label]
            } by {
                assert(record@[i] == entries@[i]@);
            }
        }
        record
    }

    /// Reads a forest from its stored form: the identifiers of each entry are
    /// put under its label, beside what earlier entries put there.
    pub fn from_serializable(record: &ForestSerializable) -> (forest: Forest)
        ensures
            forest.wf(),
            forest@ == forest_of(record@),
    {
        let mut forest = Forest::new();
        let mut n: usize = 0;
        assert(record@.take(0) =~= Seq::<ForestEntryRecord>::empty());
        while n < record.entries.len()
            invariant
                n <= record.entries@.len(),
                forest.wf(),
                forest@ == forest_of(record@.take(n as int)),
            decreases record.entries@.len() - n,
        {
            proof {
                assert(record@.take(n + 1).drop_last() =~= record@.take(n as int));
                assert(record@.take(n + 1).last() == record.entries@[n as int]@);
            }
            let set = CidSet::from_vec(&record.entries[n].cids);
            let ghost listed = views(record.entries@[n as int].cids@);
            proof {
                assert(set@ =~= listed.to_set());
                if listed.len() > 0 {
                    assert(listed.contains(listed[0]));
                    assert(set@.contains(listed[0]));
                }
            }
            let ghost front = forest@;
            if !set.is_empty() {
                forest.put_set(copy_bytes(record.entries[n].label.as_slice()), &set);
            }
            proof {
                let next = record@.take(n + 1);
                assert(next.last().cids == listed);
                assert(next.last().label == record.entries@[n as int].label@);
                assert(forest_of(next) == if listed.len() == 0 {
                    front
                } else {
                    front.insert(
                        next.last().label,
                        cids_at(front, next.last().label).union(listed.to_set()),
                    )
                });
                if listed.len() == 0 {
                    assert(set@ =~= Set::<Seq<u8>>::empty());
                }
            }
            n += 1;
        }
        assert(record@.take(n as int) =~= record@);
        forest
    }

    /// The forest that holds under every label what this forest or `other`
    /// holds there. Nothing is dropped, and the order of the two does not
    /// matter.
    pub fn merge(&self, other: &Forest) -> (both: Forest)
        requires
            self.wf(),
            other.wf(),
        ensures
            both.wf(),
            both@ == merged(self@, other@),
    {
        let mut both = self.clone();
        let labels = other.candidates();
        let mut n: usize = 0;
        proof {
            let none = other@.restrict(seen(deep(labels@), 0));
            assert(merged(self@, none) =~= self@) by {
                assert forall|k: Seq<u8>| self@.dom().contains(k) implies merged(self@, none)[k]
                    == self@[k] by {
                    assert(cids_at(self@, k).union(cids_at(none, k)) =~= self@[k]);
                }
            }
        }
        while n < labels.len()
            invariant
                n <= labels@.len(),
                other.wf(),
                both.wf(),
                both@ == merged(self@, other@.restrict(seen(deep(labels@), n as int))),
            decreases labels@.len() - n,
        {
            let ghost before = both@;
            let ghost done = other@.restrict(seen(deep(labels@), n as int));
            let ghost next = other@.restrict(seen(deep(labels@), n + 1));
            let ghost key = labels@[n as int]@;
            assert(deep(labels@)[n as int] == key);
            match other.get_encrypted_by_label(labels[n].as_slice()) {
                Some(set) => {
                    both.put_set(copy_bytes(labels[n].as_slice()), set);
                    proof {
                        assert(both@ =~= merged(self@, next)) by {
                            assert forall|k: Seq<u8>| #[trigger]
                                both@.dom().contains(k) <==> merged(self@, next).dom().contains(
                                    k,
                                ) by {
                                if k != key && next.dom().contains(k) {
                                    let j = choose|j: int|
                                        0 <= j < n + 1 && deep(labels@)[j] == k;
                                    assert(0 <= j < n && deep(labels@)[j] == k);
                                    assert(done.dom().contains(k));
                                }
                                if done.dom().contains(k) {
                                    let j = choose|j: int| 0 <= j < n && deep(labels@)[j] == k;
                                    assert(0 <= j < n + 1 && deep(labels@)[j] == k);
                                }
                            }
                            assert forall|k: Seq<u8>| both@.dom().contains(k) implies both@[k]
                                == merged(self@, next)[k] by {
                                if k == key {
                                    assert(cids_at(before, key).union(set@) =~= cids_at(
                                        self@,
                                        key,
                                    ).union(cids_at(next, key)));
                                } else {
                                    if next.dom().contains(k) {
                                        let j = choose|j: int|
                                            0 <= j < n + 1 && deep(labels@)[j] == k;
                                        assert(0 <= j < n && deep(labels@)[j] == k);
                                    }
                                    if done.dom().contains(k) {
                                        let j = choose|j: int|
                                            0 <= j < n && deep(labels@)[j] == k;
                                        assert(0 <= j < n + 1 && deep(labels@)[j] == k);
                                    }
                                    assert(cids_at(done, k) == cids_at(next, k));
                                }
                            }
                        }
                    }
                },
                None => {
                    proof {
                        assert(next =~= done) by {
                            assert forall|k: Seq<u8>| next.dom().contains(k) implies done.dom().contains(
                                k,
                            ) by {
                                let j = choose|j: int| 0 <= j < n + 1 && deep(labels@)[j] == k;
                                assert(0 <= j < n && deep(labels@)[j] == k);
                            }
                            assert forall|k: Seq<u8>| done.dom().contains(k) implies next.dom().contains(
                                k,
                            ) by {
                                let j = choose|j: int| 0 <= j < n && deep(labels@)[j] == k;
                                assert(0 <= j < n + 1 && deep(labels@)[j] == k);
                            }
                        }
                    }
                },
            }
            n += 1;
        }
        proof {
            assert(other@.restrict(seen(deep(labels@), n as int)) =~= other@) by {
                assert forall|k: Seq<u8>| other@.dom().contains(k) implies seen(
                    deep(labels@),
                    n as int,
                ).contains(k) by {
                    let j = choose|j: int| 0 <= j < deep(labels@).len() && deep(labels@)[j] == k;
                    assert(0 <= j < n && deep(labels@)[j] == k);
                }
            }
        }
        both
    }

    /// Whether what stands under each of `labels` is the same in both
    /// forests.
    fn agree_on(&self, other: &Forest, labels: &Vec<Vec<u8>>) -> (same: bool)
        requires
            self.wf(),
            other.wf(),
        ensures
            same == forall|j: int|
                0 <= j < labels@.len() ==> cids_at(self@, #[trigger] deep(labels@)[j]) == cids_at(
                    other@,
                    deep(labels@)[j],
                ) && self@.dom().contains(deep(labels@)[j]) == other@.dom().contains(
                    deep(labels@)[j],
                ),
    {
        let mut n: usize = 0;
        while n < labels.len()
            invariant
                n <= labels@.len(),
                self.wf(),
                other.wf(),
                forall|j: int|
                    0 <= j < n ==> cids_at(self@, #[trigger] deep(labels@)[j]) == cids_at(
                        other@,
                        deep(labels@)[j],
                    ) && self@.dom().contains(deep(labels@)[j]) == other@.dom().contains(
                        deep(labels@)[j],
                    ),
            decreases labels@.len() - n,
        {
            let ghost key = deep(labels@)[n as int];
            assert(key == labels@[n as int]@);
            let mine = self.get_encrypted_by_label(labels[n].as_slice());
            let theirs = other.get_encrypted_by_label(labels[n].as_slice());
            let agree = match (mine, theirs) {
                (None, None) => true,
                (Some(a), Some(b)) => a.equals(b),
                _ => false,
            };
            if !agree {
                assert(!(cids_at(self@, key) == cids_at(other@, key) && self@.dom().contains(key)
                    == other@.dom().contains(key)));
                return false;
            }
            n += 1;
        }
        true
    }

    /// Whether two forests hold the same identifiers under the same labels.
    pub fn equals(&self, other: &Forest) -> (same: bool)
        requires
            self.wf(),
            other.wf(),
        ensures
            same == (self@ == other@),
    {
        let mine = self.candidates();
        let theirs = other.candidates();
        let same = self.agree_on(other, &mine) && self.agree_on(other, &theirs);
        proof {
            if same {
                assert(self@ =~= other@) by {
                    assert forall|k: Seq<u8>| self@.dom().contains(k) implies other@.dom().contains(
                        k,
                    ) && self@[k] == other@[k] by {
                        let j = choose|j: int| 0 <= j < deep(mine@).len() && deep(mine@)[j] == k;
                        assert(cids_at(self@, deep(mine@)[j]) == cids_at(other@, deep(mine@)[j]));
                    }
                    assert forall|k: Seq<u8>| other@.dom().contains(k) implies self@.dom().contains(
                        k,
                    ) by {
                        let j = choose|j: int|
                            0 <= j < deep(theirs@).len() && deep(theirs@)[j] == k;
                        assert(cids_at(self@, deep(theirs@)[j]) == cids_at(
                            other@,
                            deep(theirs@)[j],
                        ));
                    }
                }
            }
        }
        same
    }
}

/// The first `n` of `labels`, as a set.
pub open spec fn seen(labels: Seq<Seq<u8>>, n: int) -> Set<Seq<u8>> {
    Set::new(|l: Seq<u8>| exists|j: int| 0 <= j < n && labels[j] == l)
}

impl Clone for Forest {
    fn clone(&self) -> (copy: Self)
        ensures
            copy@ == self@,
            self.wf() ==> copy.wf(),
    {
        let copy = Forest { root: self.root.clone() };
        assert(copy@ =~= self@);
        copy
    }
}

/// Merging is commutative.
pub proof fn law_merge_commutative(a: ForestView, b: ForestView)
    ensures
        merged(a, b) == merged(b, a),
{
    assert forall|k: Seq<u8>| cids_at(a, k).union(cids_at(b, k)) == cids_at(b, k).union(
        cids_at(a, k),
    ) by {
        assert(cids_at(a, k).union(cids_at(b, k)) =~= cids_at(b, k).union(cids_at(a, k)));
    }
    assert(merged(a, b) =~= merged(b, a));
}

/// Merging a forest with itself changes nothing.
pub proof fn law_merge_idempotent(a: ForestView)
    ensures
        merged(a, a) == a,
{
    assert forall|k: Seq<u8>| a.dom().contains(k) implies merged(a, a)[k] == a[k] by {
        assert(cids_at(a, k).union(cids_at(a, k)) =~= a[k]);
    }
    assert(merged(a, a) =~= a);
}

/// Merging is associative.
pub proof fn law_merge_associative(a: ForestView, b: ForestView, c: ForestView)
    ensures
        merged(merged(a, b), c) == merged(a, merged(b, c)),
{
    let left = merged(merged(a, b), c);
    let right = merged(a, merged(b, c));
    assert forall|k: Seq<u8>| left.dom().contains(k) implies left[k] == right[k] by {
        assert(cids_at(merged(a, b), k) =~= cids_at(a, k).union(cids_at(b, k)));
        assert(cids_at(merged(b, c), k) =~= cids_at(b, k).union(cids_at(c, k)));
        assert(left[k] =~= right[k]);
    }
    assert(left =~= right);
}

/// Merging never discards: what either forest holds under a label, the merged
/// forest holds there too.
pub proof fn law_merge_keeps_everything(a: ForestView, b: ForestView, label: Seq<u8>)
    ensures
        cids_at(a, label).subset_of(cids_at(merged(a, b), label)),
        cids_at(b, label).subset_of(cids_at(merged(a, b), label)),
        cids_at(merged(a, b), label) == cids_at(a, label).union(cids_at(b, label)),
{
    assert(cids_at(merged(a, b), label) =~= cids_at(a, label).union(cids_at(b, label)));
}

} // verus!
