//! A bucket of the forest: the few labels that share one place in the trie,
//! each with the identifiers written under it, held in the order of the
//! labels.

use crate::cid::CidSet;
use crate::forest::{cids_at, ForestView};
use crate::keyset::{lemma_paired_at, lemma_paired_insert, lemma_paired_update, paired, KeySet};
use vstd::prelude::*;

verus! {

/// Labels with the identifiers under them.
#[derive(Debug)]
pub struct Bucket {
    labels: KeySet,
    sets: Vec<CidSet>,
}

impl View for Bucket {
    type V = ForestView;

    closed spec fn view(&self) -> ForestView {
        paired(self.labels.keys(), self.set_views())
    }
}

impl Bucket {
    /// The sets of the bucket, in the order of their labels.
    pub closed spec fn set_views(&self) -> Seq<Set<Seq<u8>>> {
        Seq::new(self.sets@.len(), |i: int| self.sets@[i]@)
    }

    /// The labels of the bucket, in increasing order.
    pub closed spec fn labels(&self) -> Seq<Seq<u8>> {
        self.labels.keys()
    }

    /// The labels are held in increasing order, each with a set of its own
    /// that is in order and not empty.
    pub closed spec fn wf(&self) -> bool {
        &&& self.labels.wf()
        &&& self.sets@.len() == self.labels.keys().len()
        &&& forall|i: int|
            0 <= i < self.sets@.len() ==> (#[trigger] self.sets@[i]).wf() && self.sets@[i].keys().len()
                > 0
    }

    /// The empty bucket.
    pub fn new() -> (bucket: Bucket)
        ensures
            bucket.wf(),
            bucket@ == ForestView::empty(),
            bucket.labels().len() == 0,
    {
        let bucket = Bucket { labels: KeySet::new(), sets: Vec::new() };
        assert(bucket@ =~= ForestView::empty());
        bucket
    }

    /// The number of labels.
    pub fn len(&self) -> (n: usize)
        ensures
            n == self.labels().len(),
    {
        self.labels.len()
    }

    /// The label at place `i`.
    pub fn label_at(&self, i: usize) -> (label: &Vec<u8>)
        requires
            i < self.labels().len(),
        ensures
            label@ == self.labels()[i as int],
    {
        self.labels.get(i)
    }

    /// The identifiers under the label at place `i`.
    pub fn set_at(&self, i: usize) -> (set: &CidSet)
        requires
            self.wf(),
            i < self.labels().len(),
        ensures
            set.wf(),
            set.keys().len() > 0,
            self@.dom().contains(self.labels()[i as int]),
            set@ == self@[self.labels()[i as int]],
    {
        proof {
            lemma_paired_at(self.labels.keys(), self.set_views(), i as int);
        }
        &self.sets[i]
    }

    /// Every label of the view is one of the labels held.
    pub proof fn lemma_labels(&self)
        ensures
            forall|label: Seq<u8>| #[trigger]
                self@.dom().contains(label) ==> self.labels().contains(label),
            forall|i: int|
                0 <= i < self.labels().len() ==> self@.dom().contains(#[trigger] self.labels()[i]),
    {
        assert forall|i: int| 0 <= i < self.labels().len() implies self@.dom().contains(
            #[trigger] self.labels()[i],
        ) by {
            assert(self.labels().contains(self.labels()[i]));
        }
    }

    /// Puts the members of `set` under `label`, beside what is there.
    pub fn put_set(&mut self, label: Vec<u8>, set: &CidSet)
        requires
            old(self).wf(),
            set.wf(),
            set.keys().len() > 0,
        ensures
            final(self).wf(),
            final(self)@ == old(self)@.insert(label@, cids_at(old(self)@, label@).union(set@)),
    {
        let ghost labels0 = self.labels.keys();
        let ghost sets0 = self.set_views();
        let ghost key = label@;
        let placed = self.labels.insert(label);
        let i = placed.0;
        if placed.1 {
            self.sets.insert(i, set.clone());
            proof {
                assert(self.set_views() =~= sets0.insert(i as int, set@));
                lemma_paired_insert(labels0, sets0, i as int, key, set@);
                assert(cids_at(old(self)@, key) =~= Set::<Seq<u8>>::empty());
                assert(cids_at(old(self)@, key).union(set@) =~= set@);
                assert forall|j: int| 0 <= j < self.sets@.len() implies (#[trigger] self.sets@[j]).wf()
                    && self.sets@[j].keys().len() > 0 by {
                    if j < i {
                        assert(self.sets@[j] == old(self).sets@[j]);
                    } else if j > i {
                        assert(self.sets@[j] == old(self).sets@[j - 1]);
                    }
                }
            }
        } else {
            let current = self.sets.remove(i);
            let both = current.union(set);
            proof {
                assert(both.keys().len() > 0) by {
                    assert(set.keys().contains(set.keys()[0]));
                    assert(set@.contains(set.keys()[0]));
                    assert(both@.contains(set.keys()[0]));
                }
            }
            self.sets.insert(i, both);
            proof {
                assert(self.set_views() =~= sets0.update(i as int, current@.union(set@)));
                lemma_paired_update(labels0, sets0, i as int, current@.union(set@));
                lemma_paired_at(labels0, sets0, i as int);
                assert forall|j: int| 0 <= j < self.sets@.len() implies (#[trigger] self.sets@[j]).wf()
                    && self.sets@[j].keys().len() > 0 by {
                    if j != i {
                        assert(self.sets@[j] == old(self).sets@[j]);
                    }
                }
            }
        }
    }

    /// The identifiers under `label`, if the label is there.
    pub fn get(&self, label: &[u8]) -> (found: Option<&CidSet>)
        requires
            self.wf(),
        ensures
            match found {
                Some(set) => self@.dom().contains(label@) && set@ == self@[label@] && set.wf()
                    && set.keys().len() > 0,
                None => !self@.dom().contains(label@),
            },
    {
        match self.labels.index_of(label) {
            Some(i) => {
                proof {
                    lemma_paired_at(self.labels.keys(), self.set_views(), i as int);
                }
                Some(&self.sets[i])
            },
            None => None,
        }
    }
}

impl Clone for Bucket {
    fn clone(&self) -> (copy: Self)
        ensures
            copy@ == self@,
            copy.labels() == self.labels(),
            self.wf() ==> copy.wf(),
    {
        let mut sets: Vec<CidSet> = Vec::new();
        let mut n: usize = 0;
        while n < self.sets.len()
            invariant
                n <= self.sets@.len(),
                sets@.len() == n,
                forall|i: int| 0 <= i < n ==> sets@[i].keys() == self.sets@[i].keys(),
            decreases self.sets@.len() - n,
        {
            sets.push(self.sets[n].clone());
            n += 1;
        }
        let copy = Bucket { labels: self.labels.clone(), sets };
        assert(copy.set_views() =~= self.set_views());
        copy
    }
}

} // verus!
