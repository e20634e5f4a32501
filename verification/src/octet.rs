//! Elements of GF(256), each encoded as one byte.
//!
//! Addition is bitwise XOR. Multiplication is carry-less (polynomial)
//! multiplication reduced modulo the irreducible polynomial
//! x^8 + x^4 + x^3 + x^2 + 1, computed by eight shift-and-add rounds.

use vstd::prelude::*;

verus! {

/// One element of GF(256).
#[derive(Clone, Copy, Debug, PartialEq, Eq, Structural, Hash)]
pub struct Octet {
    pub value: u8,
}

impl View for Octet {
    type V = u8;

    open spec fn view(&self) -> u8 {
        self.value
    }
}

/// Field addition in GF(256): bitwise XOR of the byte encodings.
pub open spec fn gf_add(a: u8, b: u8) -> u8 {
    a ^ b
}

/// The remaining `rounds` shift-and-add rounds of carry-less
/// multiplication: each round adds `a` into the accumulator if the low
/// bit of `b` is set, doubles `a` modulo the field polynomial (the
/// reduction XORs in 0x1d when the high bit falls off), and halves `b`.
pub open spec fn gf_mul_rounds(a: u8, b: u8, acc: u8, rounds: u8) -> u8
    decreases rounds,
{
    if rounds == 0 {
        acc
    } else {
        let acc2 = if b & 1 == 1 {
            acc ^ a
        } else {
            acc
        };
        let a2 = if a & 0x80 == 0x80 {
            (a << 1) ^ 0x1d
        } else {
            a << 1
        };
        gf_mul_rounds(a2, b >> 1, acc2, (rounds - 1) as u8)
    }
}

/// Field multiplication in GF(256): polynomial multiplication of the
/// two byte encodings modulo x^8 + x^4 + x^3 + x^2 + 1.
pub open spec fn gf_mul(a: u8, b: u8) -> u8 {
    gf_mul_rounds(a, b, 0, 8)
}

/// The additive identity annihilates under multiplication.
pub proof fn lemma_gf_mul_zero(a: u8)
    ensures
        gf_mul(a, 0) == 0,
{
    assert(gf_mul_rounds(a, 0, 0, 8) == 0) by (bit_vector);
}

/// Multiplying the multiplicative identity by any element gives that
/// element back.
pub proof fn lemma_gf_mul_one_left(b: u8)
    ensures
        gf_mul(1, b) == b,
{
    assert(gf_mul_rounds(1, b, 0, 8) == b) by (bit_vector);
}

/// Multiplying any element by the multiplicative identity gives that
/// element back, so scaling by one changes nothing.
pub proof fn lemma_gf_mul_one_right(a: u8)
    ensures
        gf_mul(a, 1) == a,
{
    assert(gf_mul_rounds(a, 1, 0, 8) == a) by (bit_vector);
}

impl Octet {
    pub fn new(value: u8) -> (r: Octet)
        ensures
            r@ == value,
    {
        Octet { value }
    }

    /// The byte encoding of this element.
    pub fn byte(&self) -> (r: u8)
        ensures
            r == self@,
    {
        self.value
    }

    /// The additive identity.
    pub fn zero() -> (r: Octet)
        ensures
            r@ == 0,
    {
        Octet { value: 0 }
    }

    /// The multiplicative identity.
    pub fn one() -> (r: Octet)
        ensures
            r@ == 1,
    {
        Octet { value: 1 }
    }

    /// Field addition.
    pub fn add(&self, other: &Octet) -> (r: Octet)
        ensures
            r@ == gf_add(self@, other@),
    {
        Octet { value: self.value ^ other.value }
    }

    /// Field multiplication by eight shift-and-add rounds.
    pub fn mul(&self, other: &Octet) -> (r: Octet)
        ensures
            r@ == gf_mul(self@, other@),
    {
        let mut a: u8 = self.value;
        let mut b: u8 = other.value;
        let mut acc: u8 = 0;
        let mut round: u8 = 0;
        while round < 8
            invariant
                round <= 8,
                gf_mul_rounds(a, b, acc, (8 - round) as u8) == gf_mul(self@, other@),
            decreases 8 - round,
        {
            let acc2: u8 = if b & 1 == 1 {
                acc ^ a
            } else {
                acc
            };
            let a2: u8 = if a & 0x80 == 0x80 {
                (a << 1) ^ 0x1d
            } else {
                a << 1
            };
            let b2: u8 = b >> 1;
            proof {
                assert(gf_mul_rounds(a, b, acc, (8 - round) as u8) == gf_mul_rounds(
                    a2,
                    b2,
                    acc2,
                    (8 - (round + 1)) as u8,
                ));
            }
            a = a2;
            b = b2;
            acc = acc2;
            round = round + 1;
        }
        Octet { value: acc }
    }
}

} // verus!
