//! The random choices of the simulation, drawn from rand's thread-local
//! generator.
use vstd::prelude::*;
use rand::seq::SliceRandom;
use rand::Rng;

verus! {

/// `b` is a rearrangement of `a`: position `i` of `b` holds what position
/// `perm[i]` of `a` held, for a one-to-one `perm`.
pub open spec fn is_permutation<A>(a: Seq<A>, b: Seq<A>) -> bool {
    &&& a.len() == b.len()
    &&& exists|perm: Seq<int>|
        #![trigger perm.len()]
        {
            &&& perm.len() == a.len()
            &&& forall|i: int|
                0 <= i < perm.len() ==> 0 <= #[trigger] perm[i] < a.len() && b[i] == a[perm[i]]
            &&& forall|i: int, j: int|
                0 <= i < j < perm.len() ==> #[trigger] perm[i] != #[trigger] perm[j]
        }
}

/// Relies on rand's `SliceRandom::shuffle` for slices: it only swaps
/// elements in place, so the result is a rearrangement of the input.
#[verifier::external_body]
pub(crate) fn shuffle_labels(v: &mut Vec<String>)
    ensures
        is_permutation(old(v)@, final(v)@),
{
    v.shuffle(&mut rand::thread_rng());
}

/// Relies on rand's `Rng::gen_range` on the half-open range `0..n`: a value
/// in that range; the range is never empty, on which it would panic.
#[verifier::external_body]
pub(crate) fn random_index(n: u64) -> (r: u64)
    requires
        n > 0,
    ensures
        r < n,
{
    rand::thread_rng().gen_range(0..n)
}

} // verus!
