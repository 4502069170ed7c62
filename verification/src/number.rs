//! Natural numbers behind big-endian digit strings, and products of them.

use vstd::arithmetic::mul::lemma_mul_is_associative;
use vstd::arithmetic::power::{lemma_pow_mod_noop, lemma_pow_multiplies, pow};
use vstd::prelude::*;

verus! {

/// The number that a string of base-256 digits denotes, most significant digit
/// first.
pub open spec fn be_value(digits: Seq<u8>) -> nat
    decreases digits.len(),
{
    if digits.len() == 0 {
        0
    } else {
        be_value(digits.drop_last()) * 256 + digits.last() as nat
    }
}

/// The product of a sequence of numbers; 1 for the empty sequence.
pub open spec fn product(factors: Seq<nat>) -> nat
    decreases factors.len(),
{
    if factors.len() == 0 {
        1
    } else {
        product(factors.drop_last()) * factors.last()
    }
}

/// `base` raised to the product of `exponents`, reduced modulo `modulus`.
pub open spec fn modpow_product(base: nat, exponents: Seq<nat>, modulus: nat) -> nat {
    (pow(base as int, product(exponents)) % (modulus as int)) as nat
}

/// Raising to one exponent after the other, reducing after each step.
pub open spec fn modpow_each(base: nat, exponents: Seq<nat>, modulus: nat) -> nat
    decreases exponents.len(),
{
    if exponents.len() == 0 {
        base
    } else {
        modpow_product(
            modpow_each(base, exponents.drop_last(), modulus),
            seq![exponents.last()],
            modulus,
        )
    }
}

/// The product of a concatenation is the product of the two products.
pub proof fn lemma_product_concat(a: Seq<nat>, b: Seq<nat>)
    ensures
        product(a + b) == product(a) * product(b),
    decreases b.len(),
{
    if b.len() == 0 {
        assert(a + b =~= a);
        assert(product(a) * 1 == product(a)) by (nonlinear_arith);
    } else {
        assert((a + b).drop_last() =~= a + b.drop_last());
        assert((a + b).last() == b.last());
        lemma_product_concat(a, b.drop_last());
        lemma_mul_is_associative(
            product(a) as int,
            product(b.drop_last()) as int,
            b.last() as int,
        );
    }
}

/// Taking one factor out of a product.
pub proof fn lemma_product_remove(factors: Seq<nat>, i: int)
    requires
        0 <= i < factors.len(),
    ensures
        product(factors) == product(factors.remove(i)) * factors[i],
{
    let head = factors.subrange(0, i);
    let tail = factors.subrange(i + 1, factors.len() as int);
    let one = seq![factors[i]];
    assert(factors =~= head + one + tail);
    assert(factors.remove(i) =~= head + tail);
    lemma_product_concat(head, one);
    lemma_product_concat(head + one, tail);
    lemma_product_concat(head, tail);
    assert(one.drop_last() =~= Seq::<nat>::empty());
    assert(product(one) == factors[i]) by {
        assert(product(one) == product(one.drop_last()) * one.last());
        assert(1 * factors[i] == factors[i]) by (nonlinear_arith);
    }
    let h = product(head) as int;
    let t = product(tail) as int;
    let x = factors[i] as int;
    assert((h * x) * t == (h * t) * x) by (nonlinear_arith);
}

/// A product does not depend on the order of its factors.
pub proof fn lemma_product_permutation(a: Seq<nat>, b: Seq<nat>)
    requires
        a.to_multiset() == b.to_multiset(),
    ensures
        product(a) == product(b),
    decreases a.len(),
{
    broadcast use vstd::seq_lib::group_to_multiset_ensures;

    a.to_multiset_ensures();
    b.to_multiset_ensures();
    if a.len() == 0 {
        assert(b.len() == 0);
    } else {
        let x = a.last();
        let last = a.len() - 1;
        assert(a.contains(x)) by {
            assert(a[last] == x);
        }
        assert(b.to_multiset().count(x) > 0);
        assert(b.contains(x));
        let i = choose|i: int| 0 <= i < b.len() && b[i] == x;
        assert(a.drop_last() =~= a.remove(last));
        assert(a.remove(last).to_multiset() == a.to_multiset().remove(x));
        assert(b.remove(i).to_multiset() == b.to_multiset().remove(x));
        lemma_product_permutation(a.drop_last(), b.remove(i));
        lemma_product_remove(b, i);
    }
}

/// Raising to a product in one step gives what raising to each factor in turn
/// gives, as soon as there is one factor.
pub proof fn lemma_modpow_each_is_product(base: nat, exponents: Seq<nat>, modulus: nat)
    requires
        modulus > 0,
        exponents.len() > 0,
    ensures
        modpow_each(base, exponents, modulus) == modpow_product(base, exponents, modulus),
    decreases exponents.len(),
{
    let front = exponents.drop_last();
    let x = exponents.last();
    let one = seq![x];
    assert(one.drop_last() =~= Seq::<nat>::empty());
    assert(product(one) == x) by {
        assert(product(one) == product(one.drop_last()) * one.last());
        assert(1 * x == x) by (nonlinear_arith);
    }
    let m = modulus as int;
    let inner = modpow_each(base, front, modulus);
    assert(modpow_each(base, exponents, modulus) == (pow(inner as int, x) % m) as nat);
    if front.len() == 0 {
        assert(exponents =~= one);
        assert(inner == base);
    } else {
        lemma_modpow_each_is_product(base, front, modulus);
        let p = product(front);
        let b = base as int;
        // (b^p mod m)^x mod m == (b^p)^x mod m == b^(p * x) mod m
        lemma_pow_mod_noop(pow(b, p), x, m);
        lemma_pow_multiplies(b, p, x);
        assert(inner as int == pow(b, p) % m);
        assert(product(exponents) == p * x);
    }
}

/// Two digit strings of one length that denote the same number are equal.
pub proof fn lemma_be_value_injective(a: Seq<u8>, b: Seq<u8>)
    requires
        a.len() == b.len(),
        be_value(a) == be_value(b),
    ensures
        a == b,
    decreases a.len(),
{
    if a.len() == 0 {
        assert(a =~= b);
    } else {
        let x = be_value(a.drop_last()) as int;
        let y = be_value(b.drop_last()) as int;
        let p = a.last() as int;
        let q = b.last() as int;
        assert(x == y && p == q) by (nonlinear_arith)
            requires
                x * 256 + p == y * 256 + q,
                0 <= p < 256,
                0 <= q < 256,
        ;
        lemma_be_value_injective(a.drop_last(), b.drop_last());
        assert(a =~= a.drop_last().push(a.last()));
        assert(b =~= b.drop_last().push(b.last()));
    }
}

/// The string of `len` base-256 digits that denotes `value`, most significant
/// digit first.
pub open spec fn be_digits(value: nat, len: nat) -> Seq<u8>
    decreases len,
{
    if len == 0 {
        Seq::empty()
    } else {
        be_digits(value / 256, (len - 1) as nat).push((value % 256) as u8)
    }
}

/// A string of digits denotes a number below 256 to the power of its length.
pub proof fn lemma_be_value_bound(digits: Seq<u8>)
    ensures
        be_value(digits) < pow(256, digits.len()),
    decreases digits.len(),
{
    reveal(pow);
    if digits.len() > 0 {
        lemma_be_value_bound(digits.drop_last());
        let front = be_value(digits.drop_last()) as int;
        let bound = pow(256, (digits.len() - 1) as nat);
        assert(pow(256, digits.len()) == 256 * bound);
        assert(front * 256 + digits.last() < 256 * bound) by (nonlinear_arith)
            requires
                front < bound,
                digits.last() < 256,
        ;
    }
}

/// Every number below 256 to the power of `len` has its string of `len`
/// digits.
pub proof fn lemma_be_digits(value: nat, len: nat)
    requires
        value < pow(256, len),
    ensures
        be_digits(value, len).len() == len,
        be_value(be_digits(value, len)) == value,
    decreases len,
{
    reveal(pow);
    if len > 0 {
        let bound = pow(256, (len - 1) as nat);
        assert(pow(256, len) == 256 * bound);
        assert(value / 256 < bound) by (nonlinear_arith)
            requires
                value < 256 * bound,
        ;
        lemma_be_digits(value / 256, (len - 1) as nat);
        let digits = be_digits(value, len);
        assert(digits.drop_last() =~= be_digits(value / 256, (len - 1) as nat));
        assert(value == (value / 256) * 256 + value % 256) by (nonlinear_arith);
    }
}

} // verus!
