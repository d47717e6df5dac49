use vstd::prelude::*;

verus! {

/// An abelian group whose elements are the values of `Self`.
///
/// The executable operations are pinned to the spec operations, and the
/// proof functions state the group laws that every implementation proves.
pub trait Group: Sized {
    /// The neutral element.
    spec fn spec_zero() -> Self;

    /// The multiplicative unit of the ring the group carries.
    spec fn spec_one() -> Self;

    /// The group operation.
    spec fn spec_add(a: Self, b: Self) -> Self;

    /// The ring multiplication.
    spec fn spec_mul(a: Self, b: Self) -> Self;

    /// The inverse of `a` under the group operation.
    spec fn spec_neg(a: Self) -> Self;

    /// The group operation is associative.
    proof fn lemma_add_assoc(a: Self, b: Self, c: Self)
        ensures
            Self::spec_add(Self::spec_add(a, b), c) == Self::spec_add(a, Self::spec_add(b, c)),
    ;

    /// The group operation is commutative.
    proof fn lemma_add_comm(a: Self, b: Self)
        ensures
            Self::spec_add(a, b) == Self::spec_add(b, a),
    ;

    /// Zero is neutral.
    proof fn lemma_add_zero(a: Self)
        ensures
            Self::spec_add(Self::spec_zero(), a) == a,
    ;

    /// `spec_neg(a)` is the inverse of `a`.
    proof fn lemma_add_neg(a: Self)
        ensures
            Self::spec_add(a, Self::spec_neg(a)) == Self::spec_zero(),
    ;

    fn zero() -> (r: Self)
        ensures
            r == Self::spec_zero(),
    ;

    fn one() -> (r: Self)
        ensures
            r == Self::spec_one(),
    ;

    /// `self = self + other`.
    fn add(&mut self, other: &Self)
        ensures
            *final(self) == Self::spec_add(*old(self), *other),
    ;

    /// `self = self * other`.
    fn mul(&mut self, other: &Self)
        ensures
            *final(self) == Self::spec_mul(*old(self), *other),
    ;

    /// `self = self - other`, that is `self + (-other)`.
    fn sub(&mut self, other: &Self)
        ensures
            *final(self) == Self::spec_add(*old(self), Self::spec_neg(*other)),
    ;

    /// `self = -self`.
    fn negate(&mut self)
        ensures
            *final(self) == Self::spec_neg(*old(self)),
    ;
}

/// A value that can be drawn from the output of a pseudorandom generator:
/// the generator hands over one 32-bit draw and the value is built from it.
pub trait FromRng: Sized {
    /// The value built from the draw `draw`.
    spec fn spec_from_rng(draw: u32) -> Self;

    /// Overwrites `self` with the value built from `draw`.
    fn from_rng(&mut self, draw: u32)
        ensures
            *final(self) == Self::spec_from_rng(draw),
    ;
}

/// `-(-a) == a`.
pub proof fn lemma_neg_neg<G: Group>(a: G)
    ensures
        G::spec_neg(G::spec_neg(a)) == a,
{
    let na = G::spec_neg(a);
    let nna = G::spec_neg(na);
    // nna = 0 + nna = (a + na) + nna = a + (na + nna) = a + 0 = a
    G::lemma_add_neg(a);
    G::lemma_add_neg(na);
    G::lemma_add_zero(nna);
    G::lemma_add_assoc(a, na, nna);
    G::lemma_add_comm(a, G::spec_zero());
    G::lemma_add_zero(a);
}

/// `-(a + b) == -a + -b`.
pub proof fn lemma_neg_add<G: Group>(a: G, b: G)
    ensures
        G::spec_neg(G::spec_add(a, b)) == G::spec_add(G::spec_neg(a), G::spec_neg(b)),
{
    let s = G::spec_add(a, b);
    let ns = G::spec_neg(s);
    let na = G::spec_neg(a);
    let nb = G::spec_neg(b);
    let r = G::spec_add(na, nb);
    // s + r == 0
    G::lemma_add_assoc(a, b, r);
    G::lemma_add_comm(na, nb);
    G::lemma_add_assoc(b, nb, na);
    G::lemma_add_neg(b);
    G::lemma_add_zero(na);
    G::lemma_add_neg(a);
    assert(G::spec_add(s, r) == G::spec_zero());
    // ns = ns + (s + r) = (ns + s) + r = 0 + r = r
    G::lemma_add_comm(ns, G::spec_zero());
    G::lemma_add_zero(ns);
    G::lemma_add_assoc(ns, s, r);
    G::lemma_add_comm(ns, s);
    G::lemma_add_neg(s);
    G::lemma_add_zero(r);
}

} // verus!
