use vstd::prelude::*;

use core::cmp::Ordering;
use vstd::std_specs::cmp::PartialOrdSpecImpl;

use crate::group::{FromRng, Group};

verus! {

/// An element of the ring of integers modulo 2^16.
#[derive(Clone, Copy, Debug, PartialEq, Eq, Structural, Ord)]
pub struct RingElm {
    value: u16,
}

/// The number of elements of the ring.
pub open spec fn ring_size() -> int {
    0x1_0000
}

impl RingElm {
    /// The integer in `[0, 2^16)` that this element stands for.
    pub closed spec fn val(self) -> u16 {
        self.value
    }

    /// The element that stands for the residue of `x` modulo 2^16.
    pub closed spec fn of_int(x: int) -> RingElm {
        RingElm { value: (x % ring_size()) as u16 }
    }

    /// `of_int(x)` stands for `x` modulo 2^16.
    pub broadcast proof fn lemma_of_int_val(x: int)
        ensures
            #[trigger] RingElm::of_int(x).val() == x % ring_size(),
    {
    }

    /// Two elements that stand for the same integer are equal.
    pub broadcast proof fn lemma_val_ext(a: RingElm, b: RingElm)
        ensures
            #![trigger a.val(), b.val()]
            a.val() == b.val() ==> a == b,
    {
    }

    /// Every element is `of_int` of the integer it stands for.
    pub broadcast proof fn lemma_of_val(a: RingElm)
        ensures
            #[trigger] RingElm::of_int(a.val() as int) == a,
    {
    }

    /// `len` copies of this element.
    pub fn to_vec(&self, len: usize) -> (r: Vec<RingElm>)
        ensures
            r@ == Seq::new(len as nat, |i: int| *self),
    {
        let mut r: Vec<RingElm> = Vec::new();
        let mut i: usize = 0;
        while i < len
            invariant
                i <= len,
                r@ == Seq::new(i as nat, |j: int| *self),
            decreases len - i,
        {
            r.push(*self);
            i = i + 1;
        }
        r
    }

    /// The element as a `u16`; every element fits, so the result is always `Some`.
    pub fn to_u16(&self) -> (r: Option<u16>)
        ensures
            r == Some(self.val()),
    {
        u16_to_u16(self.value)
    }

    /// The big-endian bytes of the element.
    pub fn to_u8_vec(&self) -> (r: Vec<u8>)
        ensures
            r@ == seq![(self.val() / 256) as u8, (self.val() % 256) as u8],
    {
        let hi: u8 = (self.value / 256) as u8;
        let lo: u8 = (self.value % 256) as u8;
        let mut r: Vec<u8> = Vec::new();
        r.push(hi);
        r.push(lo);
        r
    }

    /// The element whose big-endian bytes are `bytes`, which must be exactly two.
    pub fn from_bytes(bytes: Vec<u8>) -> (r: RingElm)
        requires
            bytes@.len() == 2,
        ensures
            r.val() == bytes@[0] as int * 256 + bytes@[1] as int,
    {
        let hi: u16 = bytes[0] as u16;
        let lo: u16 = bytes[1] as u16;
        RingElm { value: hi * 256 + lo }
    }
}

/// Reading back the big-endian bytes of an element (`to_u8_vec`, then
/// `from_bytes`) gives the element again.
pub proof fn lemma_bytes_round_trip(a: RingElm)
    ensures
        ((a.val() / 256) as u8) as int * 256 + ((a.val() % 256) as u8) as int == a.val(),
{
}

/// The subtraction operator agrees with adding the negation, which is what
/// `Group::sub` does.
pub proof fn lemma_sub_is_add_neg(a: RingElm, b: RingElm)
    ensures
        vstd::std_specs::ops::SubSpec::sub_spec(a, b) == RingElm::spec_add(a, RingElm::spec_neg(b)),
{
}

/// The ring operations are the integer operations on the values, taken
/// modulo 2^16: sum, product, difference and negation, and the ring's zero
/// and one stand for 0 and 1.
pub proof fn lemma_ring_arithmetic(a: RingElm, b: RingElm)
    ensures
        RingElm::spec_add(a, b).val() == (a.val() + b.val()) % 0x1_0000,
        RingElm::spec_mul(a, b).val() == (a.val() * b.val()) % 0x1_0000,
        RingElm::spec_add(a, RingElm::spec_neg(b)).val() == (a.val() - b.val()) % 0x1_0000,
        RingElm::spec_neg(a).val() == (-a.val()) % 0x1_0000,
        RingElm::spec_zero().val() == 0,
        RingElm::spec_one().val() == 1,
        vstd::std_specs::ops::AddSpec::add_spec(a, b).val() == (a.val() + b.val()) % 0x1_0000,
        vstd::std_specs::ops::SubSpec::sub_spec(a, b).val() == (a.val() - b.val()) % 0x1_0000,
        vstd::std_specs::ops::MulSpec::mul_spec(a, b).val() == (a.val() * b.val()) % 0x1_0000,
{
}

/// Comparing two elements compares the integers they stand for.
pub proof fn lemma_order_by_value(a: RingElm, b: RingElm)
    ensures
        a.val() < b.val() ==> vstd::std_specs::cmp::PartialOrdSpec::partial_cmp_spec(&a, &b) == Some(Ordering::Less),
        a.val() > b.val() ==> vstd::std_specs::cmp::PartialOrdSpec::partial_cmp_spec(&a, &b) == Some(Ordering::Greater),
        a.val() == b.val() ==> vstd::std_specs::cmp::PartialOrdSpec::partial_cmp_spec(&a, &b) == Some(Ordering::Equal),
{
}

/// Drawing keeps the draw modulo 2^16.
pub proof fn lemma_from_rng_value(draw: u32)
    ensures
        RingElm::spec_from_rng(draw).val() == draw % 0x1_0000,
{
}

/// `ToPrimitive::to_u16` of the `num` crate on a `u16`, which converts
/// losslessly and therefore returns `Some` of its argument.
#[verifier::external_body]
fn u16_to_u16(x: u16) -> (r: Option<u16>)
    ensures
        r == Some(x),
{
    num::ToPrimitive::to_u16(&x)
}

impl From<u16> for RingElm {
    fn from(inp: u16) -> (r: RingElm)
        ensures
            r.val() == inp,
    {
        RingElm { value: inp }
    }
}

impl vstd::std_specs::convert::FromSpecImpl<u16> for RingElm {
    open spec fn obeys_from_spec() -> bool {
        true
    }

    open spec fn from_spec(v: u16) -> RingElm {
        RingElm::of_int(v as int)
    }
}

impl PartialOrd for RingElm {
    fn partial_cmp(&self, other: &RingElm) -> (r: Option<Ordering>)
        ensures
            self.val() < other.val() ==> r == Some(Ordering::Less),
            self.val() > other.val() ==> r == Some(Ordering::Greater),
            self.val() == other.val() ==> r == Some(Ordering::Equal),
    {
        Some(self.value.cmp(&other.value))
    }
}

impl PartialOrdSpecImpl for RingElm {
    open spec fn obeys_partial_cmp_spec() -> bool {
        true
    }

    open spec fn partial_cmp_spec(&self, other: &RingElm) -> Option<Ordering> {
        if self.val() < other.val() {
            Some(Ordering::Less)
        } else if self.val() > other.val() {
            Some(Ordering::Greater)
        } else {
            Some(Ordering::Equal)
        }
    }
}

impl Group for RingElm {
    open spec fn spec_zero() -> RingElm {
        RingElm::of_int(0)
    }

    open spec fn spec_one() -> RingElm {
        RingElm::of_int(1)
    }

    open spec fn spec_add(a: RingElm, b: RingElm) -> RingElm {
        RingElm::of_int(a.val() + b.val())
    }

    open spec fn spec_mul(a: RingElm, b: RingElm) -> RingElm {
        RingElm::of_int(a.val() * b.val())
    }

    open spec fn spec_neg(a: RingElm) -> RingElm {
        RingElm::of_int(ring_size() - a.val())
    }

    proof fn lemma_add_assoc(a: RingElm, b: RingElm, c: RingElm) {
    }

    proof fn lemma_add_comm(a: RingElm, b: RingElm) {
    }

    proof fn lemma_add_zero(a: RingElm) {
    }

    proof fn lemma_add_neg(a: RingElm) {
    }

    fn zero() -> (r: RingElm)
        ensures
            r.val() == 0,
    {
        RingElm { value: 0 }
    }

    fn one() -> (r: RingElm)
        ensures
            r.val() == 1,
    {
        RingElm { value: 1 }
    }

    fn add(&mut self, other: &RingElm)
        ensures
            final(self).val() == (old(self).val() + other.val()) % 0x1_0000,
    {
        self.value = self.value.wrapping_add(other.value);
    }

    fn mul(&mut self, other: &RingElm)
        ensures
            final(self).val() == (old(self).val() * other.val()) % 0x1_0000,
    {
        self.value = self.value.wrapping_mul(other.value);
    }

    fn sub(&mut self, other: &RingElm)
        ensures
            final(self).val() == (old(self).val() - other.val()) % 0x1_0000,
    {
        self.value = self.value.wrapping_sub(other.value);
    }

    fn negate(&mut self)
        ensures
            final(self).val() == (-old(self).val()) % 0x1_0000,
    {
        let mut ret: u16 = u16::MAX;
        ret = ret.wrapping_sub(self.value);
        ret = ret.wrapping_add(1);
        self.value = ret;
    }
}

impl FromRng for RingElm {
    open spec fn spec_from_rng(draw: u32) -> RingElm {
        RingElm::of_int(draw as int)
    }

    fn from_rng(&mut self, draw: u32)
        ensures
            final(self).val() == draw % 0x1_0000,
    {
        assert((draw as u16) == draw % 0x1_0000) by (bit_vector);
        self.value = draw as u16;
    }
}

impl core::ops::Add for RingElm {
    type Output = RingElm;

    fn add(self, rhs: RingElm) -> (r: RingElm)
        ensures
            r.val() == (self.val() + rhs.val()) % 0x1_0000,
    {
        RingElm { value: self.value.wrapping_add(rhs.value) }
    }
}

impl vstd::std_specs::ops::AddSpecImpl for RingElm {
    open spec fn obeys_add_spec() -> bool {
        true
    }

    open spec fn add_req(self, rhs: RingElm) -> bool {
        true
    }

    open spec fn add_spec(self, rhs: RingElm) -> RingElm {
        RingElm::spec_add(self, rhs)
    }
}

impl core::ops::Sub for RingElm {
    type Output = RingElm;

    fn sub(self, rhs: RingElm) -> (r: RingElm)
        ensures
            r.val() == (self.val() - rhs.val()) % 0x1_0000,
    {
        RingElm { value: self.value.wrapping_sub(rhs.value) }
    }
}

impl vstd::std_specs::ops::SubSpecImpl for RingElm {
    open spec fn obeys_sub_spec() -> bool {
        true
    }

    open spec fn sub_req(self, rhs: RingElm) -> bool {
        true
    }

    open spec fn sub_spec(self, rhs: RingElm) -> RingElm {
        RingElm::of_int(self.val() - rhs.val())
    }
}

impl core::ops::Mul for RingElm {
    type Output = RingElm;

    fn mul(self, rhs: RingElm) -> (r: RingElm)
        ensures
            r.val() == (self.val() * rhs.val()) % 0x1_0000,
    {
        RingElm { value: self.value.wrapping_mul(rhs.value) }
    }
}

impl vstd::std_specs::ops::MulSpecImpl for RingElm {
    open spec fn obeys_mul_spec() -> bool {
        true
    }

    open spec fn mul_req(self, rhs: RingElm) -> bool {
        true
    }

    open spec fn mul_spec(self, rhs: RingElm) -> RingElm {
        RingElm::spec_mul(self, rhs)
    }
}

/// Pairs of group elements form a group under the componentwise operations.
impl<T: Group + Copy> Group for (T, T) {
    open spec fn spec_zero() -> (T, T) {
        (T::spec_zero(), T::spec_zero())
    }

    open spec fn spec_one() -> (T, T) {
        (T::spec_one(), T::spec_one())
    }

    open spec fn spec_add(a: (T, T), b: (T, T)) -> (T, T) {
        (T::spec_add(a.0, b.0), T::spec_add(a.1, b.1))
    }

    open spec fn spec_mul(a: (T, T), b: (T, T)) -> (T, T) {
        (T::spec_mul(a.0, b.0), T::spec_mul(a.1, b.1))
    }

    open spec fn spec_neg(a: (T, T)) -> (T, T) {
        (T::spec_neg(a.0), T::spec_neg(a.1))
    }

    proof fn lemma_add_assoc(a: (T, T), b: (T, T), c: (T, T)) {
        T::lemma_add_assoc(a.0, b.0, c.0);
        T::lemma_add_assoc(a.1, b.1, c.1);
    }

    proof fn lemma_add_comm(a: (T, T), b: (T, T)) {
        T::lemma_add_comm(a.0, b.0);
        T::lemma_add_comm(a.1, b.1);
    }

    proof fn lemma_add_zero(a: (T, T)) {
        T::lemma_add_zero(a.0);
        T::lemma_add_zero(a.1);
    }

    proof fn lemma_add_neg(a: (T, T)) {
        T::lemma_add_neg(a.0);
        T::lemma_add_neg(a.1);
    }

    fn zero() -> (r: (T, T)) {
        (T::zero(), T::zero())
    }

    fn one() -> (r: (T, T)) {
        (T::one(), T::one())
    }

    fn add(&mut self, other: &(T, T)) {
        self.0.add(&other.0);
        self.1.add(&other.1);
    }

    fn mul(&mut self, other: &(T, T)) {
        self.0.mul(&other.0);
        self.1.mul(&other.1);
    }

    fn sub(&mut self, other: &(T, T)) {
        let mut inv0: T = other.0;
        let mut inv1: T = other.1;
        inv0.negate();
        inv1.negate();
        self.0.add(&inv0);
        self.1.add(&inv1);
    }

    fn negate(&mut self) {
        self.0.negate();
        self.1.negate();
    }
}

} // verus!
