//! The trie of the forest. A label goes down the trie by the nibbles of its
//! BLAKE3 digest, one nibble per level, to the bucket that holds it. A bucket
//! that outgrows its size is replaced by a node one level down, unless the
//! digest has no nibble left. Nodes are shared between forests: a change
//! copies the nodes on the way to the changed bucket and no others.

use crate::cid::CidSet;
use crate::forest::bucket::Bucket;
use crate::forest::ForestView;
use crate::keyset::{copy_bytes, deep};
use crate::utils::make_mut;
use std::sync::Arc;
use vstd::prelude::*;

verus! {

/// The number of places in a node: one for each value of a nibble.
pub const HAMT_FANOUT: usize = 16;

/// The number of levels: one for each nibble of a digest of 32 bytes.
pub const HAMT_DEPTH: usize = 64;

/// The number of labels that a bucket holds before it is split.
pub const HAMT_BUCKET_SIZE: usize = 3;

/// The BLAKE3 digest of a byte string: 32 bytes.
pub uninterp spec fn blake3_digest(bytes: Seq<u8>) -> Seq<u8>;

/// `blake3::hash`: 32 bytes that depend on the input alone.
#[verifier::external_body]
pub(crate) fn blake3_hash(bytes: &[u8]) -> (digest: [u8; 32])
    ensures
        digest@ == blake3_digest(bytes@),
{
    blake3::hash(bytes).into()
}

/// The nibble of a digest that decides the place at level `depth`: the high
/// half of a byte at even levels, the low half at odd ones.
pub open spec fn nibble(digest: Seq<u8>, depth: int) -> int {
    if 0 <= depth && depth / 2 < digest.len() {
        if depth % 2 == 0 {
            digest[depth / 2] as int / 16
        } else {
            digest[depth / 2] as int % 16
        }
    } else {
        0
    }
}

/// The place of a label at level `depth`.
pub open spec fn place(label: Seq<u8>, depth: int) -> int {
    nibble(blake3_digest(label), depth)
}

/// The nibble of `digest` at level `depth`.
pub fn nibble_at(digest: &[u8; 32], depth: usize) -> (n: usize)
    requires
        depth < 64,
    ensures
        n == nibble(digest@, depth as int),
        n < 16,
{
    let byte = digest[depth / 2];
    if depth % 2 == 0 {
        (byte / 16) as usize
    } else {
        (byte % 16) as usize
    }
}

/// The set behind an optional set; none is the empty set.
pub open spec fn set_or_empty(found: Option<Set<Seq<u8>>>) -> Set<Seq<u8>> {
    match found {
        Some(set) => set,
        None => Set::empty(),
    }
}

/// What stands at one place of a node.
#[derive(Debug)]
pub enum Pointer {
    /// The labels that lead here, with their identifiers.
    Values(Bucket),
    /// The node one level down.
    Link(Arc<Node>),
}

/// A node of the trie: 16 places.
#[derive(Debug)]
pub struct Node {
    slots: Vec<Option<Pointer>>,
}

impl Node {
    /// What a lookup of `label` finds in the node at level `depth`.
    pub closed spec fn get(&self, depth: int, label: Seq<u8>) -> Option<Set<Seq<u8>>>
        decreases 64 - depth,
    {
        if depth < 0 || depth >= 64 || self.slots@.len() != 16 {
            None
        } else {
            match self.slots@[place(label, depth)] {
                None => None,
                Some(Pointer::Values(bucket)) => if bucket@.dom().contains(label) {
                    Some(bucket@[label])
                } else {
                    None
                },
                Some(Pointer::Link(child)) => child.get(depth + 1, label),
            }
        }
    }

    /// What a lookup of `label` finds behind one place of a node at level
    /// `depth`.
    pub closed spec fn behind(slot: Option<Pointer>, depth: int, label: Seq<u8>) -> Option<
        Set<Seq<u8>>,
    > {
        match slot {
            None => None,
            Some(Pointer::Values(bucket)) => if bucket@.dom().contains(label) {
                Some(bucket@[label])
            } else {
                None
            },
            Some(Pointer::Link(child)) => child.get(depth + 1, label),
        }
    }

    /// What stands at a place is well formed for a node at level `depth`.
    pub closed spec fn slot_wf(slot: Option<Pointer>, depth: int) -> bool {
        match slot {
            None => true,
            Some(Pointer::Values(bucket)) => bucket.wf(),
            Some(Pointer::Link(child)) => child.wf(depth + 1),
        }
    }

    /// The node has its 16 places, its buckets are in order, and the nodes
    /// below it are well formed at their levels.
    pub closed spec fn wf(&self, depth: int) -> bool
        decreases 64 - depth,
    {
        &&& 0 <= depth < 64
        &&& self.slots@.len() == 16
        &&& forall|n: int|
            0 <= n < 16 ==> match #[trigger] self.slots@[n] {
                None => true,
                Some(Pointer::Values(bucket)) => bucket.wf(),
                Some(Pointer::Link(child)) => child.wf(depth + 1),
            }
    }

    /// A node with nothing in it.
    pub fn empty() -> (node: Node)
        ensures
            forall|depth: int| 0 <= depth < 64 ==> #[trigger] node.wf(depth),
            forall|depth: int, label: Seq<u8>| #[trigger] node.get(depth, label) is None,
    {
        let mut slots: Vec<Option<Pointer>> = Vec::new();
        let mut n: usize = 0;
        while n < 16
            invariant
                n <= 16,
                slots@.len() == n,
                forall|i: int| 0 <= i < n ==> slots@[i] is None,
            decreases 16 - n,
        {
            slots.push(None);
            n += 1;
        }
        let node = Node { slots };
        assert forall|depth: int, label: Seq<u8>| #[trigger] node.get(depth, label) is None by {
            lemma_place(label, depth);
        }
        node
    }

    /// What stands under `label`, if anything.
    pub fn lookup<'a>(&'a self, depth: usize, digest: &[u8; 32], label: &[u8]) -> (found: Option<
        &'a CidSet,
    >)
        requires
            self.wf(depth as int),
            digest@ == blake3_digest(label@),
        ensures
            match found {
                Some(set) => self.get(depth as int, label@) == Some(set@) && set.wf()
                    && set.keys().len() > 0,
                None => self.get(depth as int, label@) is None,
            },
        decreases 64 - depth,
    {
        let n = nibble_at(digest, depth);
        match &self.slots[n] {
            None => None,
            Some(Pointer::Values(bucket)) => bucket.get(label),
            Some(Pointer::Link(child)) => child.lookup(depth + 1, digest, label),
        }
    }

    /// Puts the members of `set` under `label`, beside what is there. No
    /// other label is touched.
    pub fn put_set(&mut self, depth: usize, digest: &[u8; 32], label: Vec<u8>, set: &CidSet)
        requires
            old(self).wf(depth as int),
            digest@ == blake3_digest(label@),
            set.wf(),
            set.keys().len() > 0,
        ensures
            final(self).wf(depth as int),
            forall|l: Seq<u8>|
                #[trigger] final(self).get(depth as int, l) == if l == label@ {
                    Some(set_or_empty(old(self).get(depth as int, l)).union(set@))
                } else {
                    old(self).get(depth as int, l)
                },
        decreases 64 - depth, 1int,
    {
        let n = nibble_at(digest, depth);
        let ghost before = self.slots@;
        let ghost key = label@;
        let ghost d = depth as int;
        let slot = self.slots.remove(n);
        let ghost was = slot;
        assert(was == before[n as int]);
        assert(Self::slot_wf(was, d));
        let pointer = match slot {
            None => {
                let mut bucket = Bucket::new();
                bucket.put_set(label, set);
                proof {
                    assert(crate::forest::cids_at(ForestView::empty(), key).union(set@) =~= set@);
                    assert(Set::<Seq<u8>>::empty().union(set@) =~= set@);
                }
                Pointer::Values(bucket)
            },
            Some(Pointer::Values(bucket)) => {
                let ghost had = bucket@;
                let mut bucket = bucket;
                bucket.put_set(label, set);
                proof {
                    assert(set_or_empty(Self::behind(was, d, key)).union(set@)
                        =~= crate::forest::cids_at(had, key).union(set@));
                }
                if bucket.len() > HAMT_BUCKET_SIZE && depth + 1 < HAMT_DEPTH {
                    Pointer::Link(Arc::new(split(&bucket, depth + 1)))
                } else {
                    Pointer::Values(bucket)
                }
            },
            Some(Pointer::Link(child)) => {
                let ghost below = child;
                let mut child = child;
                let inner = make_mut(&mut child);
                assert(inner.wf(d + 1));
                assert forall|l: Seq<u8>| #[trigger] inner.get(d + 1, l) == below.get(d + 1, l) by {}
                inner.put_set(depth + 1, digest, label, set);
                Pointer::Link(child)
            },
        };
        let ghost placed = Some(pointer);
        proof {
            assert(Self::slot_wf(placed, d));
            assert forall|l: Seq<u8>| #[trigger]
                Self::behind(placed, d, l) == if l == key {
                    Some(set_or_empty(Self::behind(was, d, l)).union(set@))
                } else {
                    Self::behind(was, d, l)
                } by {}
        }
        self.slots.insert(n, Some(pointer));
        proof {
            assert(self.slots@ =~= before.update(n as int, placed));
            assert forall|i: int| 0 <= i < 16 implies match #[trigger] self.slots@[i] {
                None => true,
                Some(Pointer::Values(bucket)) => bucket.wf(),
                Some(Pointer::Link(child)) => child.wf(depth + 1),
            } by {
                if i != n {
                    assert(self.slots@[i] == before[i]);
                }
            }
            assert forall|l: Seq<u8>| #[trigger]
                self.get(d, l) == if l == key {
                    Some(set_or_empty(old(self).get(d, l)).union(set@))
                } else {
                    old(self).get(d, l)
                } by {
                lemma_place(l, d);
                let p = place(l, d);
                assert(old(self).get(d, l) == Self::behind(before[p], d, l));
                assert(self.get(d, l) == Self::behind(self.slots@[p], d, l));
                if p != n {
                    assert(self.slots@[p] == before[p]);
                } else {
                    assert(Self::behind(placed, d, l) == if l == key {
                        Some(set_or_empty(Self::behind(was, d, l)).union(set@))
                    } else {
                        Self::behind(was, d, l)
                    });
                }
            }
        }
    }

    /// Adds every label that a lookup can find in the node to `out`; what else
    /// the buckets hold is added too.
    pub(crate) fn collect_labels(&self, depth: usize, out: &mut Vec<Vec<u8>>)
        requires
            self.wf(depth as int),
        ensures
            forall|l: Seq<u8>| deep(old(out)@).contains(l) ==> deep(final(out)@).contains(l),
            forall|l: Seq<u8>|
                #[trigger] self.get(depth as int, l) is Some ==> deep(final(out)@).contains(l),
        decreases 64 - depth,
    {
        let mut n: usize = 0;
        while n < 16
            invariant
                n <= 16,
                self.wf(depth as int),
                forall|l: Seq<u8>| deep(old(out)@).contains(l) ==> deep(out@).contains(l),
                forall|l: Seq<u8>|
                    #[trigger] self.get(depth as int, l) is Some && place(l, depth as int) < n
                        ==> deep(out@).contains(l),
            decreases 16 - n,
        {
            let ghost had = deep(out@);
            match &self.slots[n] {
                None => {},
                Some(Pointer::Values(bucket)) => {
                    let mut i: usize = 0;
                    while i < bucket.len()
                        invariant
                            i <= bucket.labels().len(),
                            forall|l: Seq<u8>| had.contains(l) ==> deep(out@).contains(l),
                            forall|j: int|
                                0 <= j < i ==> deep(out@).contains(#[trigger] bucket.labels()[j]),
                        decreases bucket.labels().len() - i,
                    {
                        let ghost prev = deep(out@);
                        out.push(copy_bytes(bucket.label_at(i).as_slice()));
                        proof {
                            assert(deep(out@) =~= prev.push(bucket.labels()[i as int]));
                            assert forall|l: Seq<u8>| prev.contains(l) implies deep(
                                out@,
                            ).contains(l) by {
                                let k = choose|k: int| 0 <= k < prev.len() && prev[k] == l;
                                assert(deep(out@)[k] == l);
                            }
                            assert(deep(out@)[i + prev.len() - i] == bucket.labels()[i as int]);
                        }
                        i += 1;
                    }
                },
                Some(Pointer::Link(child)) => {
                    child.collect_labels(depth + 1, out);
                },
            }
            proof {
                assert forall|l: Seq<u8>|
                    #[trigger] self.get(depth as int, l) is Some && place(l, depth as int) < n + 1
                    implies deep(out@).contains(l) by {
                    if place(l, depth as int) == n {
                        match self.slots@[n as int] {
                            None => {},
                            Some(Pointer::Values(bucket)) => {
                                bucket.lemma_labels();
                                assert(bucket@.dom().contains(l));
                                let j = choose|j: int|
                                    0 <= j < bucket.labels().len() && bucket.labels()[j] == l;
                                assert(deep(out@).contains(bucket.labels()[j]));
                            },
                            Some(Pointer::Link(child)) => {
                                assert(child.get(depth + 1, l) is Some);
                            },
                        }
                    }
                }
            }
            n += 1;
        }
        proof {
            assert forall|l: Seq<u8>| #[trigger]
                self.get(depth as int, l) is Some implies deep(out@).contains(l) by {
                lemma_place(l, depth as int);
            }
        }
    }
}

/// A place is one of 16.
pub proof fn lemma_place(label: Seq<u8>, depth: int)
    ensures
        0 <= place(label, depth) < 16,
{
    let digest = blake3_digest(label);
    if 0 <= depth && depth / 2 < digest.len() {
        let byte = digest[depth / 2] as int;
        assert(0 <= byte / 16 < 16);
        assert(0 <= byte % 16 < 16);
    }
}

/// The node that holds what `bucket` holds, one level further down.
pub fn split(bucket: &Bucket, depth: usize) -> (node: Node)
    requires
        bucket.wf(),
        depth < 64,
    ensures
        node.wf(depth as int),
        forall|l: Seq<u8>|
            #[trigger] node.get(depth as int, l) == if bucket@.dom().contains(l) {
                Some(bucket@[l])
            } else {
                None
            },
    decreases 64 - depth, 2int,
{
    let mut node = Node::empty();
    let mut i: usize = 0;
    while i < bucket.len()
        invariant
            bucket.wf(),
            depth < 64,
            i <= bucket.labels().len(),
            node.wf(depth as int),
            forall|l: Seq<u8>|
                #[trigger] node.get(depth as int, l) == if exists|j: int|
                    0 <= j < i && bucket.labels()[j] == l {
                    Some(bucket@[l])
                } else {
                    None
                },
        decreases bucket.labels().len() - i,
    {
        let label = copy_bytes(bucket.label_at(i).as_slice());
        let digest = blake3_hash(label.as_slice());
        let set = bucket.set_at(i);
        let ghost before = node;
        node.put_set(depth, &digest, label, set);
        proof {
            let key = bucket.labels()[i as int];
            assert forall|l: Seq<u8>| #[trigger]
                node.get(depth as int, l) == if exists|j: int|
                    0 <= j < i + 1 && bucket.labels()[j] == l {
                    Some(bucket@[l])
                } else {
                    None
                } by {
                if l == key {
                    assert(0 <= i < i + 1 && bucket.labels()[i as int] == l);
                    assert(set_or_empty(before.get(depth as int, l)).union(set@) =~= bucket@[l]);
                } else {
                    if exists|j: int| 0 <= j < i + 1 && bucket.labels()[j] == l {
                        let j = choose|j: int| 0 <= j < i + 1 && bucket.labels()[j] == l;
                        assert(0 <= j < i && bucket.labels()[j] == l);
                    }
                }
            }
        }
        i += 1;
    }
    proof {
        bucket.lemma_labels();
        assert forall|l: Seq<u8>| #[trigger]
            node.get(depth as int, l) == if bucket@.dom().contains(l) {
                Some(bucket@[l])
            } else {
                None
            } by {
            if bucket@.dom().contains(l) {
                let j = choose|j: int| 0 <= j < bucket.labels().len() && bucket.labels()[j] == l;
                assert(0 <= j < i && bucket.labels()[j] == l);
            } else if exists|j: int| 0 <= j < i && bucket.labels()[j] == l {
                let j = choose|j: int| 0 <= j < i && bucket.labels()[j] == l;
                assert(bucket@.dom().contains(bucket.labels()[j]));
            }
        }
    }
    node
}

impl Clone for Pointer {
    fn clone(&self) -> (copy: Self)
        ensures
            match (*self, copy) {
                (Pointer::Values(a), Pointer::Values(b)) => a@ == b@ && (a.wf() ==> b.wf()),
                (Pointer::Link(a), Pointer::Link(b)) => a == b,
                _ => false,
            },
    {
        match self {
            Pointer::Values(bucket) => Pointer::Values(bucket.clone()),
            Pointer::Link(child) => Pointer::Link(child.clone()),
        }
    }
}

impl Clone for Node {
    fn clone(&self) -> (copy: Self)
        ensures
            forall|depth: int, l: Seq<u8>| #[trigger] copy.get(depth, l) == self.get(depth, l),
            forall|depth: int| self.wf(depth) ==> #[trigger] copy.wf(depth),
    {
        let mut slots: Vec<Option<Pointer>> = Vec::new();
        let mut n: usize = 0;
        while n < self.slots.len()
            invariant
                n <= self.slots@.len(),
                slots@.len() == n,
                forall|i: int|
                    0 <= i < n ==> match (self.slots@[i], #[trigger] slots@[i]) {
                        (None, None) => true,
                        (Some(Pointer::Values(a)), Some(Pointer::Values(b))) => a@ == b@ && (a.wf()
                            ==> b.wf()),
                        (Some(Pointer::Link(a)), Some(Pointer::Link(b))) => a == b,
                        _ => false,
                    },
            decreases self.slots@.len() - n,
        {
            let slot = match &self.slots[n] {
                None => None,
                Some(pointer) => Some(pointer.clone()),
            };
            slots.push(slot);
            n += 1;
        }
        let copy = Node { slots };
        proof {
            assert forall|depth: int, l: Seq<u8>| #[trigger]
                copy.get(depth, l) == self.get(depth, l) by {
                lemma_place(l, depth);
                if 0 <= depth < 64 && self.slots@.len() == 16 {
                    assert(copy.slots@[place(l, depth)] == slots@[place(l, depth)]);
                }
            }
            assert forall|depth: int| self.wf(depth) implies #[trigger] copy.wf(depth) by {
                assert forall|i: int| 0 <= i < 16 implies match #[trigger] copy.slots@[i] {
                    None => true,
                    Some(Pointer::Values(bucket)) => bucket.wf(),
                    Some(Pointer::Link(child)) => child.wf(depth + 1),
                } by {
                    assert(copy.slots@[i] == slots@[i]);
                    assert(match self.slots@[i] {
                        None => true,
                        Some(Pointer::Values(bucket)) => bucket.wf(),
                        Some(Pointer::Link(child)) => child.wf(depth + 1),
                    });
                }
            }
        }
        copy
    }
}

} // verus!
