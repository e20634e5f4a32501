//! Batch GF(256) operations over ranges of a byte buffer, and the
//! binary row vector used by the sparse fused multiply-add.
//!
//! Every operation works in place on a range of one owned `Vec<u8>`,
//! addressed by explicit start offsets, so that two disjoint ranges of
//! the same buffer can be combined without copying it.

use vstd::prelude::*;
use crate::octet::{gf_add, gf_mul, Octet};

verus! {

/// A row vector of binary (zero-or-one) field coefficients, as handed
/// to the matrix by the surrounding code for generator rows whose
/// entries are all zero or one.
#[derive(Clone, Debug)]
pub struct BinaryOctetVec {
    pub elements: Vec<bool>,
}

impl View for BinaryOctetVec {
    type V = Seq<bool>;

    open spec fn view(&self) -> Seq<bool> {
        self.elements@
    }
}

/// The field element a binary coefficient stands for.
pub open spec fn bit_value(bit: bool) -> u8 {
    if bit {
        1
    } else {
        0
    }
}

impl BinaryOctetVec {
    pub fn new(elements: Vec<bool>) -> (r: BinaryOctetVec)
        ensures
            r@ == elements@,
    {
        BinaryOctetVec { elements }
    }

    pub fn len(&self) -> (r: usize)
        ensures
            r == self@.len(),
    {
        self.elements.len()
    }
}

/// Multiplies each byte of `octets[start..start + len]` by `scalar`,
/// in place; the rest of the buffer is untouched.
pub fn mulassign_scalar(octets: &mut Vec<u8>, start: usize, len: usize, scalar: &Octet)
    requires
        start + len <= old(octets)@.len(),
    ensures
        final(octets)@.len() == old(octets)@.len(),
        forall|k: int|
            start <= k < start + len ==> #[trigger] final(octets)@[k] == gf_mul(
                scalar@,
                old(octets)@[k],
            ),
        forall|k: int|
            0 <= k < old(octets)@.len() && !(start <= k < start + len) ==> final(octets)@[k]
                == old(octets)@[k],
{
    let n: usize = octets.len();
    let mut c: usize = 0;
    while c < len
        invariant
            c <= len,
            start + len <= n,
            octets@.len() == n,
            octets@.len() == old(octets)@.len(),
            forall|k: int|
                start <= k < start + c ==> #[trigger] octets@[k] == gf_mul(
                    scalar@,
                    old(octets)@[k],
                ),
            forall|k: int|
                0 <= k < old(octets)@.len() && !(start <= k < start + c) ==> octets@[k] == old(octets)@[k],
        decreases len - c,
    {
        let idx: usize = start + c;
        let product: Octet = scalar.mul(&Octet::new(octets[idx]));
        octets.set(idx, product.byte());
        c = c + 1;
    }
}

/// Adds the bytes of `octets[src_start..src_start + len]` into
/// `octets[dest_start..dest_start + len]`, field addition, in place.
/// The two ranges must not overlap; everything outside the destination
/// range is untouched.
pub fn add_assign(octets: &mut Vec<u8>, dest_start: usize, src_start: usize, len: usize)
    requires
        dest_start + len <= old(octets)@.len(),
        src_start + len <= old(octets)@.len(),
        dest_start + len <= src_start || src_start + len <= dest_start,
    ensures
        final(octets)@.len() == old(octets)@.len(),
        forall|k: int|
            0 <= k < len ==> #[trigger] final(octets)@[dest_start + k] == gf_add(
                old(octets)@[dest_start + k],
                old(octets)@[src_start + k],
            ),
        forall|k: int|
            0 <= k < old(octets)@.len() && !(dest_start <= k < dest_start + len) ==> final(octets)@[k] == old(octets)@[k],
{
    let n: usize = octets.len();
    let mut c: usize = 0;
    while c < len
        invariant
            c <= len,
            dest_start + len <= n,
            src_start + len <= n,
            dest_start + len <= src_start || src_start + len <= dest_start,
            octets@.len() == n,
            octets@.len() == old(octets)@.len(),
            forall|k: int|
                0 <= k < c ==> #[trigger] octets@[dest_start + k] == gf_add(
                    old(octets)@[dest_start + k],
                    old(octets)@[src_start + k],
                ),
            forall|k: int|
                0 <= k < old(octets)@.len() && !(dest_start <= k < dest_start + c) ==> octets@[k]
                    == old(octets)@[k],
        decreases len - c,
    {
        let sum: Octet = Octet::new(octets[dest_start + c]).add(&Octet::new(octets[src_start + c]));
        octets.set(dest_start + c, sum.byte());
        c = c + 1;
    }
}

/// Adds `scalar` times each byte of `octets[src_start..src_start + len]`
/// into `octets[dest_start..dest_start + len]`, field arithmetic, in
/// place. The two ranges must not overlap; everything outside the
/// destination range is untouched.
pub fn fused_addassign_mul_scalar(
    octets: &mut Vec<u8>,
    dest_start: usize,
    src_start: usize,
    len: usize,
    scalar: &Octet,
)
    requires
        dest_start + len <= old(octets)@.len(),
        src_start + len <= old(octets)@.len(),
        dest_start + len <= src_start || src_start + len <= dest_start,
    ensures
        final(octets)@.len() == old(octets)@.len(),
        forall|k: int|
            0 <= k < len ==> #[trigger] final(octets)@[dest_start + k] == gf_add(
                old(octets)@[dest_start + k],
                gf_mul(scalar@, old(octets)@[src_start + k]),
            ),
        forall|k: int|
            0 <= k < old(octets)@.len() && !(dest_start <= k < dest_start + len) ==> final(octets)@[k] == old(octets)@[k],
{
    let n: usize = octets.len();
    let mut c: usize = 0;
    while c < len
        invariant
            c <= len,
            dest_start + len <= n,
            src_start + len <= n,
            dest_start + len <= src_start || src_start + len <= dest_start,
            octets@.len() == n,
            octets@.len() == old(octets)@.len(),
            forall|k: int|
                0 <= k < c ==> #[trigger] octets@[dest_start + k] == gf_add(
                    old(octets)@[dest_start + k],
                    gf_mul(scalar@, old(octets)@[src_start + k]),
                ),
            forall|k: int|
                0 <= k < old(octets)@.len() && !(dest_start <= k < dest_start + c) ==> octets@[k]
                    == old(octets)@[k],
        decreases len - c,
    {
        let scaled: Octet = scalar.mul(&Octet::new(octets[src_start + c]));
        let sum: Octet = Octet::new(octets[dest_start + c]).add(&scaled);
        octets.set(dest_start + c, sum.byte());
        c = c + 1;
    }
}

/// Adds `scalar` times each binary coefficient of `other` into
/// `octets[start..start + other.len()]`, field arithmetic, in place;
/// the rest of the buffer is untouched. A set coefficient contributes
/// `scalar` itself, a clear one contributes nothing.
pub fn fused_addassign_mul_scalar_binary(
    octets: &mut Vec<u8>,
    start: usize,
    other: &BinaryOctetVec,
    scalar: &Octet,
)
    requires
        start + other@.len() <= old(octets)@.len(),
    ensures
        final(octets)@.len() == old(octets)@.len(),
        forall|k: int|
            0 <= k < other@.len() ==> #[trigger] final(octets)@[start + k] == gf_add(
                old(octets)@[start + k],
                gf_mul(scalar@, bit_value(other@[k])),
            ),
        forall|k: int|
            0 <= k < old(octets)@.len() && !(start <= k < start + other@.len()) ==> final(octets)@[k] == old(octets)@[k],
{
    let n: usize = octets.len();
    let len: usize = other.len();
    let mut c: usize = 0;
    while c < len
        invariant
            c <= len,
            len == other@.len(),
            start + len <= n,
            octets@.len() == n,
            octets@.len() == old(octets)@.len(),
            forall|k: int|
                0 <= k < c ==> #[trigger] octets@[start + k] == gf_add(
                    old(octets)@[start + k],
                    gf_mul(scalar@, bit_value(other@[k])),
                ),
            forall|k: int|
                0 <= k < old(octets)@.len() && !(start <= k < start + c) ==> octets@[k] == old(octets)@[k],
        decreases len - c,
    {
        if other.elements[c] {
            let sum: u8 = octets[start + c] ^ scalar.byte();
            octets.set(start + c, sum);
            proof {
                crate::octet::lemma_gf_mul_one_right(scalar@);
            }
        } else {
            proof {
                crate::octet::lemma_gf_mul_zero(scalar@);
                let d = old(octets)@[start + c];
                assert(gf_add(d, 0) == d) by (bit_vector);
            }
        }
        c = c + 1;
    }
}

} // verus!
