//! The least natural number with a given property.

use vstd::prelude::*;

verus! {

/// Whether `n` has the property and no smaller number does.
pub open spec fn is_least(property: spec_fn(nat) -> bool, n: nat) -> bool {
    property(n) && forall|k: nat| k < n ==> !#[trigger] property(k)
}

/// The least number that has the property, where some number has it.
pub open spec fn least(property: spec_fn(nat) -> bool) -> nat {
    choose|n: nat| is_least(property, n)
}

/// A property that holds of `n` has a least number of which it holds, and that
/// number is at most `n`.
pub proof fn lemma_least(property: spec_fn(nat) -> bool, n: nat)
    requires
        property(n),
    ensures
        is_least(property, least(property)),
        least(property) <= n,
    decreases n,
{
    if exists|k: nat| k < n && #[trigger] property(k) {
        let k = choose|k: nat| k < n && #[trigger] property(k);
        lemma_least(property, k);
    } else {
        assert(is_least(property, n));
        if least(property) > n {
            assert(!property(n));
        }
    }
}

} // verus!
