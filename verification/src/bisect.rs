//! Binary search over timestamps held as `f64` bit patterns.
use vstd::prelude::*;
use std::cmp::Ordering;
use crate::floatbits::{order_sign, bits_lt};
use crate::keyframes::sign_at;

verus! {

/// `kf.partial_cmp(&t).unwrap_or(Equal)`.
pub fn order_toward(kf: u64, t: u64) -> (o: Ordering)
    ensures
        o == Ordering::Less <==> order_sign(kf, t) == -1,
        o == Ordering::Greater <==> order_sign(kf, t) == 1,
        o == Ordering::Equal <==> order_sign(kf, t) == 0,
{
    if bits_lt(kf, t) {
        Ordering::Less
    } else if bits_lt(t, kf) {
        Ordering::Greater
    } else {
        Ordering::Equal
    }
}

/// Comparing each element with `t` gives a run of -1, then 0, then 1 (the
/// slice is sorted with respect to this comparison).
pub open spec fn sorted_toward(s: Seq<u64>, t: u64) -> bool {
    forall|i: int, j: int| 0 <= i < j < s.len() ==> order_sign(s[i], t) <= order_sign(s[j], t)
}

/// `<[u64]>::binary_search_by` with the comparison `order_toward(_, t)`.
/// On a slice sorted with respect to that comparison, the documentation
/// promises `Ok` with the index of a matching element when one exists, and
/// otherwise `Err` with the index where such an element could be inserted
/// keeping the order; on other slices it promises nothing, and nothing is
/// stated.
#[verifier::external_body]
pub(crate) fn binary_search_toward(keyframes: &[u64], t: u64) -> (r: Result<usize, usize>)
    ensures
        sorted_toward(keyframes@, t) ==> match r {
            Ok(i) => i < keyframes@.len() && sign_at(keyframes@, i, t) == 0,
            Err(i) => i <= keyframes@.len() && (forall|j: int|
                0 <= j < i ==> order_sign(keyframes@[j], t) == -1) && (forall|j: int|
                i <= j < keyframes@.len() ==> order_sign(keyframes@[j], t) == 1),
        },
{
    keyframes.binary_search_by(|kf| order_toward(*kf, t))
}

} // verus!
