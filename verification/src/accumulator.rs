//! Names and the RSA accumulators that commit to them.
//!
//! The numbers live in the `wnfs_nameaccumulator` crate. Its types are
//! generic over a big-number backend, bound by a trait of that crate that
//! cannot be declared here. So each is held inside a struct of this module
//! whose body is not looked into, and what it holds is named by a spec
//! function: a string of base-256 digits, most significant first. Nothing is
//! proved of these values but what the functions that wrap the crate's
//! functions state.

use crate::error::FsError;
use crate::number::{
    be_value, lemma_modpow_each_is_product, lemma_product_concat, lemma_product_permutation,
    modpow_each, modpow_product, product,
};
use rand::rngs::ThreadRng;
use vstd::arithmetic::power::{lemma_pow_mod_noop, lemma_pow_multiplies, pow};
use vstd::prelude::*;

verus! {

/// `rand::rngs::ThreadRng`: the thread's cryptographically secure generator.
/// Nothing is said of what it yields.
#[verifier::external_type_specification]
#[verifier::external_body]
pub struct ExThreadRng(ThreadRng);

/// Holds a `wnfs_nameaccumulator::AccumulatorSetup`: the modulus of the RSA
/// group and the generator that the empty accumulator starts from.
#[verifier::external_body]
#[derive(Debug)]
pub struct AccumulatorSetup {
    inner: wnfs_nameaccumulator::AccumulatorSetup,
}

/// Holds a `wnfs_nameaccumulator::NameSegment`: a 256-bit prime.
#[verifier::external_body]
#[derive(Debug)]
pub struct NameSegment {
    inner: wnfs_nameaccumulator::NameSegment,
}

/// Holds a `wnfs_nameaccumulator::NameAccumulator`: one element of the RSA
/// group, which commits to all segments added so far.
#[verifier::external_body]
#[derive(Debug)]
pub struct NameAccumulator {
    inner: wnfs_nameaccumulator::NameAccumulator,
}

/// The RSA-2048 challenge number, as 256 big-endian digits. Its factors are
/// not known.
pub const RSA_2048_MODULUS: [u8; 256] = [
    0xc7, 0x97, 0x0c, 0xee, 0xdc, 0xc3, 0xb0, 0x75, 0x44, 0x90, 0x20, 0x1a,
    0x7a, 0xa6, 0x13, 0xcd, 0x73, 0x91, 0x10, 0x81, 0xc7, 0x90, 0xf5, 0xf1,
    0xa8, 0x72, 0x6f, 0x46, 0x35, 0x50, 0xbb, 0x5b, 0x7f, 0xf0, 0xdb, 0x8e,
    0x1e, 0xa1, 0x18, 0x9e, 0xc7, 0x2f, 0x93, 0xd1, 0x65, 0x00, 0x11, 0xbd,
    0x72, 0x1a, 0xee, 0xac, 0xc2, 0xac, 0xde, 0x32, 0xa0, 0x41, 0x07, 0xf0,
    0x64, 0x8c, 0x28, 0x13, 0xa3, 0x1f, 0x5b, 0x0b, 0x77, 0x65, 0xff, 0x8b,
    0x44, 0xb4, 0xb6, 0xff, 0xc9, 0x33, 0x84, 0xb6, 0x46, 0xeb, 0x09, 0xc7,
    0xcf, 0x5e, 0x85, 0x92, 0xd4, 0x0e, 0xa3, 0x3c, 0x80, 0x03, 0x9f, 0x35,
    0xb4, 0xf1, 0x4a, 0x04, 0xb5, 0x1f, 0x7b, 0xfd, 0x78, 0x1b, 0xe4, 0xd1,
    0x67, 0x31, 0x64, 0xba, 0x8e, 0xb9, 0x91, 0xc2, 0xc4, 0xd7, 0x30, 0xbb,
    0xbe, 0x35, 0xf5, 0x92, 0xbd, 0xef, 0x52, 0x4a, 0xf7, 0xe8, 0xda, 0xef,
    0xd2, 0x6c, 0x66, 0xfc, 0x02, 0xc4, 0x79, 0xaf, 0x89, 0xd6, 0x4d, 0x37,
    0x3f, 0x44, 0x27, 0x09, 0x43, 0x9d, 0xe6, 0x6c, 0xeb, 0x95, 0x5f, 0x3e,
    0xa3, 0x7d, 0x51, 0x59, 0xf6, 0x13, 0x58, 0x09, 0xf8, 0x53, 0x34, 0xb5,
    0xcb, 0x18, 0x13, 0xad, 0xdc, 0x80, 0xcd, 0x05, 0x60, 0x9f, 0x10, 0xac,
    0x6a, 0x95, 0xad, 0x65, 0x87, 0x2c, 0x90, 0x95, 0x25, 0xbd, 0xad, 0x32,
    0xbc, 0x72, 0x95, 0x92, 0x64, 0x29, 0x20, 0xf2, 0x4c, 0x61, 0xdc, 0x5b,
    0x3c, 0x3b, 0x79, 0x23, 0xe5, 0x6b, 0x16, 0xa4, 0xd9, 0xd3, 0x73, 0xd8,
    0x72, 0x1f, 0x24, 0xa3, 0xfc, 0x0f, 0x1b, 0x31, 0x31, 0xf5, 0x56, 0x15,
    0x17, 0x28, 0x66, 0xbc, 0xcc, 0x30, 0xf9, 0x50, 0x54, 0xc8, 0x24, 0xe7,
    0x33, 0xa5, 0xeb, 0x68, 0x17, 0xf7, 0xbc, 0x16, 0x39, 0x9d, 0x48, 0xc6,
    0x36, 0x1c, 0xc7, 0xe5,
];

/// The 256 big-endian digits of a setup's modulus.
pub uninterp spec fn setup_modulus(setup: AccumulatorSetup) -> Seq<u8>;

/// The 256 big-endian digits of a setup's generator.
pub uninterp spec fn setup_generator(setup: AccumulatorSetup) -> Seq<u8>;

/// The 32 big-endian digits of a segment's prime.
pub uninterp spec fn segment_digits(segment: NameSegment) -> Seq<u8>;

/// The 256 big-endian digits of an accumulator's state.
pub uninterp spec fn accumulator_digits(accumulator: NameAccumulator) -> Seq<u8>;

/// The digits of the prime that `NameSegment::new_hashed` derives from a
/// domain separation string and data.
pub uninterp spec fn hashed_digits(context: Seq<char>, data: Seq<u8>) -> Seq<u8>;

/// The digit strings of a sequence of segments.
pub open spec fn segments_digits(segments: Seq<NameSegment>) -> Seq<Seq<u8>> {
    Seq::new(segments.len(), |i: int| segments[i].digits())
}

/// The numbers that a sequence of digit strings denotes.
pub open spec fn values_of(digits: Seq<Seq<u8>>) -> Seq<nat> {
    Seq::new(digits.len(), |i: int| be_value(digits[i]))
}

/// `AccumulatorSetup::from_rsa_2048` with the thread's generator: the modulus
/// is the RSA-2048 challenge number, the generator a random square below it.
/// Claimed: the modulus has the digits of `RSA_2048_MODULUS`, and the
/// generator has 256 digits and is smaller than the modulus.
#[verifier::external_body]
fn setup_from_rsa_2048(rng: &mut ThreadRng) -> (setup: AccumulatorSetup)
    ensures
        setup_modulus(setup) == RSA_2048_MODULUS@,
        setup.wf(),
{
    AccumulatorSetup { inner: wnfs_nameaccumulator::AccumulatorSetup::from_rsa_2048(rng) }
}

/// `AccumulatorSetup::with_modulus` on 256 bytes: the setup over the modulus
/// with these digits, with a generator that is a random square below it. A
/// modulus of zero is left out: the crate draws a number below the modulus,
/// which panics on zero; other lengths are left out too, the crate takes an
/// array of 256 bytes.
#[verifier::external_body]
fn setup_with_modulus(modulus: &[u8], rng: &mut ThreadRng) -> (setup: AccumulatorSetup)
    requires
        modulus@.len() == 256,
        be_value(modulus@) > 0,
    ensures
        setup_modulus(setup) == modulus@,
        setup.wf(),
{
    let digits: [u8; 256] = modulus.try_into().unwrap();
    AccumulatorSetup { inner: wnfs_nameaccumulator::AccumulatorSetup::with_modulus(&digits, rng) }
}

/// `Clone::clone` of the setup: the same modulus and generator.
#[verifier::external_body]
fn setup_clone(setup: &AccumulatorSetup) -> (copy: AccumulatorSetup)
    ensures
        setup_modulus(copy) == setup_modulus(*setup),
        setup_generator(copy) == setup_generator(*setup),
{
    AccumulatorSetup { inner: setup.inner.clone() }
}

/// `NameSegment::new`: a random 256-bit prime. Claimed: it has 32 digits.
#[verifier::external_body]
fn segment_random(rng: &mut ThreadRng) -> (segment: NameSegment)
    ensures
        segment_digits(segment).len() == 32,
{
    NameSegment { inner: wnfs_nameaccumulator::NameSegment::new(rng) }
}

/// `NameSegment::new_hashed`: the prime that the crate's hash-to-prime
/// derives from the context and the data. Claimed: the result depends on these
/// two alone, and has 32 digits.
#[verifier::external_body]
fn segment_hashed(context: &str, data: &[u8]) -> (segment: NameSegment)
    ensures
        segment_digits(segment) == hashed_digits(context@, data@),
        segment_digits(segment).len() == 32,
{
    NameSegment { inner: wnfs_nameaccumulator::NameSegment::new_hashed(context, data) }
}

/// `Clone::clone` of a segment: the same prime.
#[verifier::external_body]
fn segment_clone(segment: &NameSegment) -> (copy: NameSegment)
    ensures
        segment_digits(copy) == segment_digits(*segment),
{
    NameSegment { inner: segment.inner.clone() }
}

/// `PartialEq::eq` of two segments: whether the primes are equal.
#[verifier::external_body]
fn segment_eq(a: &NameSegment, b: &NameSegment) -> (same: bool)
    ensures
        same == (segment_digits(*a) == segment_digits(*b)),
{
    a.inner == b.inner
}

/// `NameAccumulator::empty`: the accumulator whose state is the setup's
/// generator.
#[verifier::external_body]
fn accumulator_empty(setup: &AccumulatorSetup) -> (accumulator: NameAccumulator)
    ensures
        accumulator_digits(accumulator) == setup_generator(*setup),
{
    NameAccumulator { inner: wnfs_nameaccumulator::NameAccumulator::empty(&setup.inner) }
}

/// `NameAccumulator::add`: raises the state to the product of the segments'
/// primes, modulo the setup's modulus. The proof of the step that the crate
/// hands back is dropped. A modulus of zero is left out: the crate's
/// exponentiation divides by it.
#[verifier::external_body]
fn accumulator_add(
    accumulator: &mut NameAccumulator,
    segments: &Vec<NameSegment>,
    setup: &AccumulatorSetup,
)
    requires
        setup.wf(),
    ensures
        accumulator_digits(*final(accumulator)).len() == 256,
        be_value(accumulator_digits(*final(accumulator))) == modpow_product(
            be_value(accumulator_digits(*old(accumulator))),
            values_of(segments_digits(segments@)),
            be_value(setup_modulus(*setup)),
        ),
{
    let _ = accumulator.inner.add(segments.iter().map(|s| &s.inner), &setup.inner);
}

/// `NameAccumulator::parse_bytes` on 256 bytes: the accumulator whose state
/// has these digits. Other lengths are left out: the crate panics on them.
#[verifier::external_body]
fn accumulator_parse(bytes: &[u8]) -> (accumulator: NameAccumulator)
    requires
        bytes@.len() == 256,
    ensures
        accumulator_digits(accumulator) == bytes@,
{
    NameAccumulator {
        inner: wnfs_nameaccumulator::NameAccumulator::parse_bytes(bytes).unwrap(),
    }
}

/// `NameAccumulator::as_bytes`: the 256 big-endian digits of the state.
#[verifier::external_body]
fn accumulator_bytes(accumulator: &NameAccumulator) -> (bytes: [u8; 256])
    ensures
        bytes@ == accumulator_digits(*accumulator),
{
    *accumulator.inner.as_bytes()
}

/// `Clone::clone` of an accumulator: the same state.
#[verifier::external_body]
fn accumulator_clone(accumulator: &NameAccumulator) -> (copy: NameAccumulator)
    ensures
        accumulator_digits(copy) == accumulator_digits(*accumulator),
{
    NameAccumulator { inner: accumulator.inner.clone() }
}

/// `PartialEq::eq` of two accumulators: whether the states are equal.
#[verifier::external_body]
fn accumulator_eq(a: &NameAccumulator, b: &NameAccumulator) -> (same: bool)
    ensures
        same == (accumulator_digits(*a) == accumulator_digits(*b)),
{
    a.inner == b.inner
}

impl AccumulatorSetup {
    /// The digits of the modulus.
    pub closed spec fn modulus_digits(&self) -> Seq<u8> {
        setup_modulus(*self)
    }

    /// The digits of the generator.
    pub closed spec fn generator_digits(&self) -> Seq<u8> {
        setup_generator(*self)
    }

    /// The modulus of the group.
    pub open spec fn modulus(&self) -> nat {
        be_value(self.modulus_digits())
    }

    /// The state of the empty accumulator.
    pub open spec fn generator(&self) -> nat {
        be_value(self.generator_digits())
    }

    /// A setup that accumulators can work with: modulus and generator have 256
    /// digits each, the modulus is not zero, and the generator lies below it.
    pub open spec fn wf(&self) -> bool {
        &&& self.modulus_digits().len() == 256
        &&& self.generator_digits().len() == 256
        &&& self.modulus() > 0
        &&& self.generator() < self.modulus()
    }

    /// Whether a byte string can be the modulus of a setup: it has 256 bytes
    /// and denotes an odd number.
    pub open spec fn valid_modulus(modulus: Seq<u8>) -> bool {
        modulus.len() == 256 && modulus.last() % 2 == 1
    }

    /// A setup over the modulus with the big-endian digits `modulus`, with a
    /// generator drawn from `rng`. A modulus that is not 256 bytes long or is
    /// even fails the consistency check.
    pub fn with_modulus(modulus: &[u8], rng: &mut ThreadRng) -> (setup: Result<
        AccumulatorSetup,
        FsError,
    >)
        ensures
            match setup {
                Ok(s) => Self::valid_modulus(modulus@) && s.modulus_digits() == modulus@ && s.wf(),
                Err(e) => !Self::valid_modulus(modulus@) && e == FsError::InvalidSetupParameters,
            },
    {
        if modulus.len() != 256 || modulus[255] % 2 != 1 {
            return Err(FsError::InvalidSetupParameters);
        }
        assert(be_value(modulus@) >= modulus@.last());
        Ok(setup_with_modulus(modulus, rng))
    }

    /// A setup over the RSA-2048 challenge modulus, with a generator drawn
    /// from `rng`.
    pub fn from_rsa_2048(rng: &mut ThreadRng) -> (setup: AccumulatorSetup)
        ensures
            setup.modulus_digits() == RSA_2048_MODULUS@,
            setup.wf(),
    {
        setup_from_rsa_2048(rng)
    }
}

impl Clone for AccumulatorSetup {
    fn clone(&self) -> (copy: Self)
        ensures
            copy.modulus_digits() == self.modulus_digits(),
            copy.generator_digits() == self.generator_digits(),
    {
        setup_clone(self)
    }
}

impl NameSegment {
    /// The 32 big-endian digits of the segment's prime.
    pub closed spec fn digits(&self) -> Seq<u8> {
        segment_digits(*self)
    }

    /// The segment's prime.
    pub open spec fn value(&self) -> nat {
        be_value(self.digits())
    }

    /// A segment from pure randomness: unlinkable and unguessable.
    pub fn new(rng: &mut ThreadRng) -> (segment: NameSegment)
        ensures
            segment.digits().len() == 32,
    {
        segment_random(rng)
    }

    /// The segment bound to a context string and data: the same inputs give
    /// the same segment every time.
    pub fn new_hashed(context: &str, data: &[u8]) -> (segment: NameSegment)
        ensures
            segment.digits() == hashed_digits(context@, data@),
            segment.digits().len() == 32,
    {
        segment_hashed(context, data)
    }

    /// Whether two segments hold the same prime.
    pub fn equals(&self, other: &NameSegment) -> (same: bool)
        ensures
            same == (self.digits() == other.digits()),
    {
        segment_eq(self, other)
    }
}

impl Clone for NameSegment {
    fn clone(&self) -> (copy: Self)
        ensures
            copy.digits() == self.digits(),
    {
        segment_clone(self)
    }
}

impl NameAccumulator {
    /// The 256 big-endian digits of the state.
    pub closed spec fn digits(&self) -> Seq<u8> {
        accumulator_digits(*self)
    }

    /// The state: an element of the setup's group.
    pub open spec fn value(&self) -> nat {
        be_value(self.digits())
    }

    /// Every accumulator that this module hands out has 256 digits.
    pub open spec fn wf(&self) -> bool {
        self.digits().len() == 256
    }

    /// What `parse_bytes` makes of a byte string: the digits of the parsed
    /// accumulator, or nothing where the length is not 256.
    pub open spec fn spec_parse(bytes: Seq<u8>) -> Option<Seq<u8>> {
        if bytes.len() == 256 {
            Some(bytes)
        } else {
            None
        }
    }

    /// The accumulator that no segment was added to: the identity value.
    pub fn empty(setup: &AccumulatorSetup) -> (accumulator: NameAccumulator)
        requires
            setup.wf(),
        ensures
            accumulator.digits() == setup.generator_digits(),
            accumulator.wf(),
    {
        accumulator_empty(setup)
    }

    /// The accumulator that holds exactly `segments`.
    pub fn with_segments(segments: &Vec<NameSegment>, setup: &AccumulatorSetup) -> (accumulator:
        NameAccumulator)
        requires
            setup.wf(),
        ensures
            accumulator.wf(),
            accumulator.value() == modpow_product(
                setup.generator(),
                values_of(segments_digits(segments@)),
                setup.modulus(),
            ),
    {
        let mut accumulator = accumulator_empty(setup);
        accumulator_add(&mut accumulator, segments, setup);
        accumulator
    }

    /// Adds segments: the state is raised to the product of their primes,
    /// modulo the setup's modulus. There is no way back.
    pub fn add(&mut self, segments: &Vec<NameSegment>, setup: &AccumulatorSetup)
        requires
            setup.wf(),
        ensures
            final(self).wf(),
            final(self).value() == modpow_product(
                old(self).value(),
                values_of(segments_digits(segments@)),
                setup.modulus(),
            ),
    {
        accumulator_add(self, segments, setup);
    }

    /// Reads an accumulator from its 256 bytes.
    pub fn parse_bytes(bytes: &[u8]) -> (parsed: Result<NameAccumulator, FsError>)
        ensures
            match parsed {
                Ok(accumulator) => Self::spec_parse(bytes@) == Some(accumulator.digits()),
                Err(e) => Self::spec_parse(bytes@) is None && e == FsError::MalformedRecord,
            },
    {
        if bytes.len() == 256 {
            Ok(accumulator_parse(bytes))
        } else {
            Err(FsError::MalformedRecord)
        }
    }

    /// The 256 bytes of the accumulator: the digits of its state.
    pub fn as_bytes(&self) -> (bytes: [u8; 256])
        ensures
            bytes@ == self.digits(),
            self.wf(),
    {
        accumulator_bytes(self)
    }

    /// The 256 bytes of the accumulator: the digits of its state.
    pub fn into_bytes(self) -> (bytes: [u8; 256])
        ensures
            bytes@ == self.digits(),
            self.wf(),
    {
        accumulator_bytes(&self)
    }

    /// Whether two accumulators have the same state.
    pub fn equals(&self, other: &NameAccumulator) -> (same: bool)
        ensures
            same == (self.digits() == other.digits()),
    {
        accumulator_eq(self, other)
    }
}

impl Clone for NameAccumulator {
    fn clone(&self) -> (copy: Self)
        ensures
            copy.digits() == self.digits(),
    {
        accumulator_clone(self)
    }
}

/// Parsing the bytes of an accumulator gives the accumulator back.
pub proof fn law_accumulator_round_trip(accumulator: NameAccumulator)
    requires
        accumulator.wf(),
    ensures
        NameAccumulator::spec_parse(accumulator.digits()) == Some(accumulator.digits()),
{
}

/// Accumulating the same segments in another order gives the same state,
/// whether they are added in one step or one after the other.
pub proof fn law_add_is_order_independent(
    state: nat,
    first: Seq<nat>,
    second: Seq<nat>,
    modulus: nat,
)
    requires
        modulus > 0,
        first.to_multiset() == second.to_multiset(),
    ensures
        modpow_product(state, first, modulus) == modpow_product(state, second, modulus),
        modpow_each(state, first, modulus) == modpow_each(state, second, modulus),
{
    broadcast use vstd::seq_lib::group_to_multiset_ensures;

    lemma_product_permutation(first, second);
    first.to_multiset_ensures();
    second.to_multiset_ensures();
    assert(first.len() == second.len());
    if first.len() > 0 {
        lemma_modpow_each_is_product(state, first, modulus);
        lemma_modpow_each_is_product(state, second, modulus);
    }
}

/// Adding segments in two steps gives what adding all of them at once gives.
pub proof fn law_add_composes(state: nat, first: Seq<nat>, second: Seq<nat>, modulus: nat)
    requires
        modulus > 0,
    ensures
        modpow_product(modpow_product(state, first, modulus), second, modulus) == modpow_product(
            state,
            first + second,
            modulus,
        ),
{
    let b = state as int;
    let m = modulus as int;
    let p = product(first);
    let q = product(second);
    lemma_product_concat(first, second);
    lemma_pow_mod_noop(pow(b, p), q, m);
    lemma_pow_multiplies(b, p, q);
}

} // verus!
