//! The lexicographic order on byte strings, by which content identifiers and
//! labels are kept sorted.

use vstd::prelude::*;

verus! {

/// `a` comes strictly before `b`: at the first place where they differ `a` has
/// the smaller byte, or `a` ends there and `b` does not.
pub open spec fn lex_lt(a: Seq<u8>, b: Seq<u8>) -> bool
    decreases a.len(),
{
    if b.len() == 0 {
        false
    } else if a.len() == 0 {
        true
    } else if a[0] != b[0] {
        a[0] < b[0]
    } else {
        lex_lt(a.drop_first(), b.drop_first())
    }
}

/// Where one byte string stands relative to another.
#[derive(Debug, Clone, Copy, PartialEq, Eq, Structural)]
pub enum Rank {
    Before,
    Same,
    After,
}

/// No byte string comes before itself.
pub proof fn lemma_lex_irreflexive(a: Seq<u8>)
    ensures
        !lex_lt(a, a),
    decreases a.len(),
{
    if a.len() > 0 {
        lemma_lex_irreflexive(a.drop_first());
    }
}

/// Of two different byte strings exactly one comes before the other.
pub proof fn lemma_lex_total(a: Seq<u8>, b: Seq<u8>)
    ensures
        a != b ==> (lex_lt(a, b) <==> !lex_lt(b, a)),
        a == b ==> !lex_lt(a, b) && !lex_lt(b, a),
    decreases a.len(),
{
    if a == b {
        lemma_lex_irreflexive(a);
    } else if a.len() == 0 || b.len() == 0 {
        if a.len() == 0 && b.len() == 0 {
            assert(a =~= b);
        }
    } else if a[0] == b[0] {
        lemma_lex_total(a.drop_first(), b.drop_first());
        if a.drop_first() == b.drop_first() {
            assert(a =~= seq![a[0]] + a.drop_first());
            assert(b =~= seq![b[0]] + b.drop_first());
        }
    }
}

/// The order is transitive.
pub proof fn lemma_lex_transitive(a: Seq<u8>, b: Seq<u8>, c: Seq<u8>)
    requires
        lex_lt(a, b),
        lex_lt(b, c),
    ensures
        lex_lt(a, c),
    decreases a.len(),
{
    if a.len() > 0 && a[0] == b[0] && b[0] == c[0] {
        lemma_lex_transitive(a.drop_first(), b.drop_first(), c.drop_first());
    }
}

/// Compares two byte strings.
pub fn rank(a: &[u8], b: &[u8]) -> (r: Rank)
    ensures
        (r == Rank::Before) == lex_lt(a@, b@),
        (r == Rank::Same) == (a@ == b@),
        (r == Rank::After) == lex_lt(b@, a@),
{
    proof {
        lemma_lex_total(a@, b@);
        assert(a@.skip(0) =~= a@);
        assert(b@.skip(0) =~= b@);
    }
    let mut i: usize = 0;
    while i < a.len() && i < b.len()
        invariant
            i <= a.len(),
            i <= b.len(),
            lex_lt(a@, b@) == lex_lt(a@.skip(i as int), b@.skip(i as int)),
            lex_lt(b@, a@) == lex_lt(b@.skip(i as int), a@.skip(i as int)),
            (a@ == b@) == (a@.skip(i as int) == b@.skip(i as int)),
        decreases a.len() - i,
    {
        let ghost ra = a@.skip(i as int);
        let ghost rb = b@.skip(i as int);
        assert(ra[0] == a@[i as int] && rb[0] == b@[i as int]);
        assert(ra.drop_first() =~= a@.skip(i + 1));
        assert(rb.drop_first() =~= b@.skip(i + 1));
        if a[i] < b[i] {
            proof {
                lemma_lex_total(ra, rb);
            }
            return Rank::Before;
        }
        if a[i] > b[i] {
            proof {
                lemma_lex_total(ra, rb);
            }
            return Rank::After;
        }
        proof {
            if ra.drop_first() == rb.drop_first() {
                assert(ra =~= seq![ra[0]] + ra.drop_first());
                assert(rb =~= seq![rb[0]] + rb.drop_first());
            }
        }
        i += 1;
    }
    let ghost ra = a@.skip(i as int);
    let ghost rb = b@.skip(i as int);
    if i < b.len() {
        assert(ra.len() == 0 && rb.len() > 0);
        Rank::Before
    } else if i < a.len() {
        assert(rb.len() == 0 && ra.len() > 0);
        Rank::After
    } else {
        assert(ra =~= rb);
        Rank::Same
    }
}

} // verus!
