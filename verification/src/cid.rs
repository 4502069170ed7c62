//! Content identifiers and sets of them.
//!
//! A content identifier is held in its binary form. A set keeps its members
//! sorted, so that two sets with the same members are the same bytes.

use crate::keyset::{copy_bytes, deep, sorted_form, strictly_increasing, KeySet};
use crate::lex::{lemma_lex_total, lex_lt, rank, Rank};
use vstd::prelude::*;

verus! {

/// A content identifier: the address of a block, derived from its content.
#[derive(Debug)]
pub struct Cid {
    bytes: Vec<u8>,
}

impl View for Cid {
    type V = Seq<u8>;

    closed spec fn view(&self) -> Seq<u8> {
        self.bytes@
    }
}

impl Cid {
    /// The identifier with the binary form `bytes`.
    pub fn from_bytes(bytes: Vec<u8>) -> (cid: Cid)
        ensures
            cid@ == bytes@,
    {
        Cid { bytes }
    }

    /// The binary form of the identifier.
    pub fn as_bytes(&self) -> (bytes: &Vec<u8>)
        ensures
            bytes@ == self@,
    {
        &self.bytes
    }

    /// A copy of the binary form of the identifier.
    pub fn to_bytes(&self) -> (bytes: Vec<u8>)
        ensures
            bytes@ == self@,
    {
        copy_bytes(self.bytes.as_slice())
    }

    /// Where this identifier stands relative to another.
    pub fn rank(&self, other: &Cid) -> (r: Rank)
        ensures
            (r == Rank::Before) == lex_lt(self@, other@),
            (r == Rank::Same) == (self@ == other@),
            (r == Rank::After) == lex_lt(other@, self@),
    {
        rank(self.bytes.as_slice(), other.bytes.as_slice())
    }
}

impl Clone for Cid {
    fn clone(&self) -> (copy: Self)
        ensures
            copy@ == self@,
    {
        Cid { bytes: copy_bytes(self.bytes.as_slice()) }
    }
}

impl PartialEq for Cid {
    fn eq(&self, other: &Self) -> (same: bool) {
        self.rank(other) == Rank::Same
    }
}

impl Eq for Cid {

}

impl vstd::std_specs::cmp::PartialEqSpecImpl for Cid {
    open spec fn obeys_eq_spec() -> bool {
        true
    }

    open spec fn eq_spec(&self, other: &Self) -> bool {
        self@ == other@
    }
}

/// The binary forms of a sequence of identifiers.
pub open spec fn views(cids: Seq<Cid>) -> Seq<Seq<u8>> {
    Seq::new(cids.len(), |i: int| cids[i]@)
}

/// `key` is the member of `set` that comes before all others.
pub open spec fn is_least(key: Seq<u8>, set: Set<Seq<u8>>) -> bool {
    &&& set.contains(key)
    &&& forall|k: Seq<u8>| set.contains(k) ==> !lex_lt(k, key)
}

/// A set of content identifiers.
#[derive(Debug)]
pub struct CidSet {
    members: KeySet,
}

impl View for CidSet {
    type V = Set<Seq<u8>>;

    open spec fn view(&self) -> Set<Seq<u8>> {
        Set::new(|k: Seq<u8>| self.keys().contains(k))
    }
}

impl CidSet {
    /// The binary forms of the members in the order in which they are held.
    pub closed spec fn keys(&self) -> Seq<Seq<u8>> {
        self.members.keys()
    }

    /// The members are held in strictly increasing order.
    pub open spec fn wf(&self) -> bool {
        strictly_increasing(self.keys())
    }

    /// The empty set.
    pub fn new() -> (set: CidSet)
        ensures
            set.wf(),
            set@ == Set::<Seq<u8>>::empty(),
            set.keys() == Seq::<Seq<u8>>::empty(),
    {
        let set = CidSet { members: KeySet::new() };
        assert(set@ =~= Set::<Seq<u8>>::empty());
        set
    }

    /// The number of members.
    pub fn len(&self) -> (n: usize)
        ensures
            n == self.keys().len(),
    {
        self.members.len()
    }

    /// Whether the set has no member.
    pub fn is_empty(&self) -> (empty: bool)
        ensures
            empty == (self.keys().len() == 0),
            empty == (self@ == Set::<Seq<u8>>::empty()),
    {
        proof {
            if self.keys().len() > 0 {
                assert(self.keys().contains(self.keys()[0]));
                assert(self@.contains(self.keys()[0]));
            } else {
                assert(self@ =~= Set::<Seq<u8>>::empty());
            }
        }
        self.members.len() == 0
    }

    /// The member at place `i` of the sorted order.
    pub fn get(&self, i: usize) -> (cid: Cid)
        requires
            i < self.keys().len(),
        ensures
            cid@ == self.keys()[i as int],
    {
        Cid { bytes: copy_bytes(self.members.get(i).as_slice()) }
    }

    /// The member at the front of the sorted order comes before all others.
    pub proof fn lemma_first_is_least(&self)
        requires
            self.wf(),
            self.keys().len() > 0,
        ensures
            is_least(self.keys()[0], self@),
    {
        let keys = self.keys();
        assert(keys.contains(keys[0]));
        assert forall|k: Seq<u8>| self@.contains(k) implies !lex_lt(k, keys[0]) by {
            let j = choose|j: int| 0 <= j < keys.len() && keys[j] == k;
            lemma_lex_total(k, keys[0]);
            if j > 0 {
                assert(lex_lt(keys[0], keys[j]));
            }
        }
    }

    /// The first member of the sorted order, if there is one.
    pub fn first(&self) -> (cid: Option<Cid>)
        ensures
            match cid {
                Some(c) => self.keys().len() > 0 && c@ == self.keys()[0] && (self.wf()
                    ==> is_least(c@, self@)),
                None => self.keys().len() == 0,
            },
    {
        if self.members.len() == 0 {
            None
        } else {
            proof {
                if self.wf() {
                    self.lemma_first_is_least();
                }
            }
            Some(self.get(0))
        }
    }

    /// The first member of the sorted order of a set that is not empty.
    pub fn least(&self) -> (cid: Cid)
        requires
            self.wf(),
            self.keys().len() > 0,
        ensures
            cid@ == self.keys()[0],
            is_least(cid@, self@),
    {
        proof {
            self.lemma_first_is_least();
        }
        self.get(0)
    }

    /// Whether `cid` is a member.
    pub fn contains(&self, cid: &Cid) -> (found: bool)
        requires
            self.wf(),
        ensures
            found == self@.contains(cid@),
    {
        let found = self.members.contains(cid.bytes.as_slice());
        assert(self@.contains(cid@) == self.members@.contains(cid@));
        found
    }

    /// Adds `cid` to the set. Tells whether it was new.
    pub fn insert(&mut self, cid: Cid) -> (added: bool)
        requires
            old(self).wf(),
        ensures
            final(self).wf(),
            final(self)@ == old(self)@.insert(cid@),
            added == !old(self)@.contains(cid@),
    {
        assert(old(self)@ =~= old(self).members@);
        let placed = self.members.insert(cid.bytes);
        assert(self@ =~= self.members@);
        placed.1
    }

    /// The set with the one member `cid`.
    pub fn singleton(cid: Cid) -> (set: CidSet)
        ensures
            set.wf(),
            set@ == Set::<Seq<u8>>::empty().insert(cid@),
            set.keys() == seq![cid@],
    {
        let mut members = KeySet::new();
        let ghost key = cid@;
        let placed = members.insert(cid.bytes);
        assert(placed.1);
        assert(members.keys().len() == 1);
        let set = CidSet { members };
        assert(set.keys() =~= seq![key]);
        assert(set@ =~= Set::<Seq<u8>>::empty().insert(key)) by {
            assert(set.keys()[0] == key);
        }
        set
    }

    /// The set of the identifiers in `cids`.
    pub fn from_vec(cids: &Vec<Cid>) -> (set: CidSet)
        ensures
            set.wf(),
            set.keys() == sorted_form(views(cids@)),
            forall|k: Seq<u8>| set@.contains(k) <==> views(cids@).contains(k),
    {
        let mut keys: Vec<Vec<u8>> = Vec::new();
        let mut n: usize = 0;
        while n < cids.len()
            invariant
                n <= cids.len(),
                keys@.len() == n,
                forall|i: int| 0 <= i < n ==> keys@[i]@ == cids@[i]@,
            decreases cids.len() - n,
        {
            keys.push(cids[n].to_bytes());
            n += 1;
        }
        assert(deep(keys@) =~= views(cids@));
        let set = CidSet { members: KeySet::from_vec(&keys) };
        assert forall|k: Seq<u8>| set@.contains(k) <==> views(cids@).contains(k) by {
            assert(set@.contains(k) == set.members@.contains(k));
        }
        set
    }

    /// The members in increasing order.
    pub fn to_vec(&self) -> (cids: Vec<Cid>)
        ensures
            views(cids@) == self.keys(),
    {
        let mut cids: Vec<Cid> = Vec::new();
        let mut n: usize = 0;
        while n < self.members.len()
            invariant
                n <= self.keys().len(),
                cids@.len() == n,
                forall|i: int| 0 <= i < n ==> cids@[i]@ == self.keys()[i],
            decreases self.keys().len() - n,
        {
            cids.push(self.get(n));
            n += 1;
        }
        assert(views(cids@) =~= self.keys());
        cids
    }

    /// The members of both sets.
    pub fn union(&self, other: &CidSet) -> (both: CidSet)
        requires
            self.wf(),
            other.wf(),
        ensures
            both.wf(),
            both@ == self@.union(other@),
    {
        let both = CidSet { members: self.members.union(&other.members) };
        assert(both@ =~= self@.union(other@)) by {
            assert(both@ =~= both.members@);
            assert(self@ =~= self.members@);
            assert(other@ =~= other.members@);
        }
        both
    }

    /// Whether two sets have the same members.
    pub fn equals(&self, other: &CidSet) -> (same: bool)
        ensures
            same == (self.keys() == other.keys()),
            self.wf() && other.wf() ==> same == (self@ == other@),
    {
        assert(self@ =~= self.members@);
        assert(other@ =~= other.members@);
        self.members.equals(&other.members)
    }
}

impl Clone for CidSet {
    fn clone(&self) -> (copy: Self)
        ensures
            copy.keys() == self.keys(),
            copy@ == self@,
    {
        CidSet { members: self.members.clone() }
    }
}

} // verus!
