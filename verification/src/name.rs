//! Names: a path from the root, as the accumulator it is relative to and the
//! segments that follow.

use crate::accumulator::{
    law_add_is_order_independent, segments_digits, values_of, AccumulatorSetup, NameAccumulator,
    NameSegment,
};
use crate::number::{
    be_digits, be_value, lemma_be_digits, lemma_be_value_bound, lemma_be_value_injective,
    modpow_product, product,
};
use vstd::arithmetic::power::pow;
use vstd::prelude::*;

verus! {

/// The name of a file or directory: segments in order, relative to a committed
/// accumulator.
#[derive(Debug)]
pub struct Name {
    relative_to: NameAccumulator,
    segments: Vec<NameSegment>,
}

/// What a name is: the digits of the accumulator it starts from, and the digit
/// strings of its segments, in order.
pub struct NameView {
    pub base: Seq<u8>,
    pub segments: Seq<Seq<u8>>,
}

impl NameView {
    /// The state of the accumulator that a name with this view commits to.
    pub open spec fn label(self, modulus: nat) -> nat {
        modpow_product(be_value(self.base), values_of(self.segments), modulus)
    }

    /// The 256 digits of that state: the label that the forest files a name
    /// with this view under.
    pub open spec fn label_digits(self, modulus: nat) -> Seq<u8> {
        choose|digits: Seq<u8>| digits.len() == 256 && be_value(digits) == self.label(modulus)
    }
}

impl View for Name {
    type V = NameView;

    closed spec fn view(&self) -> NameView {
        NameView { base: self.relative_to.digits(), segments: segments_digits(self.segments@) }
    }
}

/// Copies segments one by one.
fn clone_segments(segments: &Vec<NameSegment>) -> (copy: Vec<NameSegment>)
    ensures
        segments_digits(copy@) == segments_digits(segments@),
{
    let mut copy: Vec<NameSegment> = Vec::new();
    let mut i: usize = 0;
    while i < segments.len()
        invariant
            i <= segments.len(),
            copy@.len() == i,
            forall|j: int| 0 <= j < i ==> copy@[j].digits() == segments@[j].digits(),
        decreases segments.len() - i,
    {
        copy.push(segments[i].clone());
        i += 1;
    }
    assert(segments_digits(copy@) =~= segments_digits(segments@));
    copy
}

impl Name {
    /// Every name that this module hands out starts from an accumulator of 256
    /// digits.
    pub open spec fn wf(&self) -> bool {
        self@.base.len() == 256
    }

    /// The name with `segments` after `relative_to`.
    pub fn new(relative_to: NameAccumulator, segments: Vec<NameSegment>) -> (name: Name)
        ensures
            name@.base == relative_to.digits(),
            name@.segments == segments_digits(segments@),
    {
        Name { relative_to, segments }
    }

    /// The name of the root: no segments after the empty accumulator.
    pub fn empty(setup: &AccumulatorSetup) -> (name: Name)
        requires
            setup.wf(),
        ensures
            name@.base == setup.generator_digits(),
            name@.segments.len() == 0,
            name.wf(),
    {
        Name { relative_to: NameAccumulator::empty(setup), segments: Vec::new() }
    }

    /// Whether the name has no segments of its own.
    pub fn is_root(&self) -> (root: bool)
        ensures
            root == (self@.segments.len() == 0),
    {
        self.segments.len() == 0
    }

    /// Removes the last segment, if there is one.
    pub fn up(&mut self)
        ensures
            final(self)@.base == old(self)@.base,
            final(self)@.segments == if old(self)@.segments.len() == 0 {
                old(self)@.segments
            } else {
                old(self)@.segments.drop_last()
            },
    {
        let _ = self.segments.pop();
        assert(segments_digits(self.segments@) =~= if old(self)@.segments.len() == 0 {
            old(self)@.segments
        } else {
            old(self)@.segments.drop_last()
        });
    }

    /// The name without its last segment; nothing for a root.
    pub fn parent(&self) -> (parent: Option<Name>)
        ensures
            match parent {
                Some(p) => self@.segments.len() > 0 && p@.base == self@.base && p@.segments
                    == self@.segments.drop_last(),
                None => self@.segments.len() == 0,
            },
    {
        if self.is_root() {
            None
        } else {
            let mut name = self.clone();
            name.up();
            Some(name)
        }
    }

    /// The number of segments.
    pub fn segment_count(&self) -> (count: usize)
        ensures
            count == self@.segments.len(),
    {
        self.segments.len()
    }

    /// The segments of the name, in order.
    pub fn get_segments(&self) -> (segments: &Vec<NameSegment>)
        ensures
            segments_digits(segments@) == self@.segments,
    {
        &self.segments
    }

    /// Appends segments to the name.
    pub fn add_segments(&mut self, segments: Vec<NameSegment>)
        ensures
            final(self)@.base == old(self)@.base,
            final(self)@.segments == old(self)@.segments + segments_digits(segments@),
    {
        let ghost added = segments_digits(segments@);
        let mut segments = segments;
        self.segments.append(&mut segments);
        assert(segments_digits(self.segments@) =~= old(self)@.segments + added);
    }

    /// A copy of the name with segments appended.
    pub fn with_segments_added(&self, segments: Vec<NameSegment>) -> (name: Name)
        ensures
            name@.base == self@.base,
            name@.segments == self@.segments + segments_digits(segments@),
    {
        let mut name = self.clone();
        name.add_segments(segments);
        name
    }

    /// The accumulator that the name commits to: the one it is relative to,
    /// with every segment added. This is the label that the name is stored
    /// under.
    pub fn into_accumulator(&self, setup: &AccumulatorSetup) -> (label: NameAccumulator)
        requires
            setup.wf(),
        ensures
            label.wf(),
            label.value() == self@.label(setup.modulus()),
            label.digits() == self@.label_digits(setup.modulus()),
    {
        let mut label = self.relative_to.clone();
        label.add(&self.segments, setup);
        proof {
            lemma_be_value_injective(label.digits(), self@.label_digits(setup.modulus()));
        }
        label
    }

    /// Whether two names start from the same accumulator and have the same
    /// segments in the same order.
    pub fn equals(&self, other: &Name) -> (same: bool)
        ensures
            same == (self@ == other@),
    {
        if !self.relative_to.equals(&other.relative_to) {
            return false;
        }
        if self.segments.len() != other.segments.len() {
            assert(self@.segments.len() != other@.segments.len());
            return false;
        }
        let mut i: usize = 0;
        while i < self.segments.len()
            invariant
                i <= self.segments.len(),
                self.segments.len() == other.segments.len(),
                forall|j: int| 0 <= j < i ==> self@.segments[j] == other@.segments[j],
            decreases self.segments.len() - i,
        {
            if !self.segments[i].equals(&other.segments[i]) {
                assert(self@.segments[i as int] != other@.segments[i as int]);
                return false;
            }
            i += 1;
        }
        assert(self@.segments =~= other@.segments);
        true
    }
}

impl Clone for Name {
    fn clone(&self) -> (copy: Self)
        ensures
            copy@ == self@,
    {
        Name { relative_to: self.relative_to.clone(), segments: clone_segments(&self.segments) }
    }
}

/// Two names that start from the same accumulator and hold the same segments,
/// in whatever order, commit to the same label: the storage layer cannot tell
/// them apart.
pub proof fn law_label_ignores_segment_order(a: NameView, b: NameView, modulus: nat)
    requires
        modulus > 0,
        a.base == b.base,
        values_of(a.segments).to_multiset() == values_of(b.segments).to_multiset(),
    ensures
        a.label(modulus) == b.label(modulus),
{
    law_add_is_order_independent(
        be_value(a.base),
        values_of(a.segments),
        values_of(b.segments),
        modulus,
    );
}

/// Two labels of 256 digits that denote the same state are the same bytes.
pub proof fn law_equal_labels_have_equal_bytes(a: NameAccumulator, b: NameAccumulator)
    requires
        a.wf(),
        b.wf(),
        a.value() == b.value(),
    ensures
        a.digits() == b.digits(),
{
    lemma_be_value_injective(a.digits(), b.digits());
}

/// Under a modulus of 256 digits every name has its label of 256 digits.
pub proof fn lemma_label_digits(name: NameView, modulus_digits: Seq<u8>)
    requires
        modulus_digits.len() == 256,
        be_value(modulus_digits) > 0,
    ensures
        name.label_digits(be_value(modulus_digits)).len() == 256,
        be_value(name.label_digits(be_value(modulus_digits))) == name.label(
            be_value(modulus_digits),
        ),
{
    let modulus = be_value(modulus_digits);
    let label = name.label(modulus);
    lemma_be_value_bound(modulus_digits);
    assert(label < modulus) by {
        let x = pow(be_value(name.base) as int, product(values_of(name.segments)));
        assert(0 <= x % (modulus as int) < modulus) by (nonlinear_arith)
            requires
                modulus > 0,
        ;
    }
    lemma_be_digits(label, 256);
    let witness = be_digits(label, 256);
    assert(witness.len() == 256 && be_value(witness) == label);
}

/// A name is stored as the accumulator that it commits to. The name that is
/// read back has no segments of its own, and commits to the same label.
pub proof fn law_name_round_trip(name: NameView, modulus_digits: Seq<u8>)
    requires
        modulus_digits.len() == 256,
        be_value(modulus_digits) > 0,
    ensures
        (NameView {
            base: name.label_digits(be_value(modulus_digits)),
            segments: Seq::empty(),
        }).label(be_value(modulus_digits)) == name.label(be_value(modulus_digits)),
        (NameView {
            base: name.label_digits(be_value(modulus_digits)),
            segments: Seq::empty(),
        }).label_digits(be_value(modulus_digits)) == name.label_digits(be_value(modulus_digits)),
{
    let modulus = be_value(modulus_digits);
    let stored = name.label_digits(modulus);
    let read = NameView { base: stored, segments: Seq::empty() };
    lemma_label_digits(name, modulus_digits);
    lemma_label_digits(read, modulus_digits);
    let label = name.label(modulus) as int;
    let m = modulus as int;
    assert(values_of(read.segments) =~= Seq::<nat>::empty());
    assert(product(Seq::<nat>::empty()) == 1);
    assert(pow(label, 1) == label) by {
        vstd::arithmetic::power::lemma_pow1(label);
    }
    assert(0 <= label < m) by {
        let x = pow(be_value(name.base) as int, product(values_of(name.segments)));
        assert(0 <= x % m < m) by (nonlinear_arith)
            requires
                m > 0,
        ;
    }
    assert(label % m == label) by (nonlinear_arith)
        requires
            0 <= label < m,
    ;
    lemma_be_value_injective(read.label_digits(modulus), stored);
}

} // verus!
