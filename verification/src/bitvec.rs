//! Trusted interface to the `bit_vec` crate, which supplies the usage-bit
//! vector of the cache.

use vstd::prelude::*;

verus! {

/// Declares `bit_vec::BitVec` so that it can stand in fields and signatures;
/// a value of it is opaque to the verifier.
#[verifier::external_type_specification]
#[verifier::external_body]
#[verifier::reject_recursive_types(B)]
pub struct ExBitVec<B>(bit_vec::BitVec<B>);

/// The sequence of booleans that a `bit_vec::BitVec` holds, one per bit, in
/// bit order.
pub uninterp spec fn bits_of(bv: bit_vec::BitVec) -> Seq<bool>;

/// Relies on `bit_vec::BitVec::from_elem`: a vector of `len` bits, each set
/// to `bit`.
#[verifier::external_body]
pub(crate) fn bits_new(len: usize, bit: bool) -> (r: bit_vec::BitVec)
    ensures
        bits_of(r) == Seq::new(len as nat, |i: int| bit),
{
    bit_vec::BitVec::from_elem(len, bit)
}

/// Relies on `bit_vec::BitVec::get`: returns `Some` of the bit at `i`
/// whenever `i` is in range, which the caller guarantees here.
#[verifier::external_body]
pub(crate) fn bits_get(bv: &bit_vec::BitVec, i: usize) -> (r: bool)
    requires
        i < bits_of(*bv).len(),
    ensures
        r == bits_of(*bv)[i as int],
{
    bv.get(i).unwrap()
}

/// Relies on `bit_vec::BitVec::set`: stores `x` at index `i`, which must be
/// in range, and leaves every other bit as it was.
#[verifier::external_body]
pub(crate) fn bits_set(bv: &mut bit_vec::BitVec, i: usize, x: bool)
    requires
        i < bits_of(*old(bv)).len(),
    ensures
        bits_of(*final(bv)) == bits_of(*old(bv)).update(i as int, x),
{
    bv.set(i, x)
}

} // verus!
