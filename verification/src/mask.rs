//! The capability mask and its narrowing operation.
//!
//! A mask is a set of capabilities, one per bit. Narrowing is the meet of
//! two masks: a capability survives only where both masks hold it. An
//! absent narrowing step restricts nothing, which the all-ones mask
//! represents.

use vstd::prelude::*;

verus! {

/// The mask with every capability set: narrowing by it is a no-op.
pub open spec fn unrestricted() -> u64 {
    u64::MAX
}

/// The meet of two masks: a capability is kept only where both hold it.
pub open spec fn narrow(a: u64, b: u64) -> u64 {
    a & b
}

/// The mask a narrowing step applies: an absent step restricts nothing.
pub open spec fn step_mask(step: Option<u64>) -> u64 {
    match step {
        Option::Some(m) => m,
        Option::None => unrestricted(),
    }
}

/// Whether every capability of `a` is also one of `b`.
pub open spec fn submask(a: u64, b: u64) -> bool {
    a & b == a
}

/// Narrowing by the unrestricted mask changes nothing.
pub proof fn lemma_narrow_unrestricted(a: u64)
    ensures
        narrow(a, unrestricted()) == a,
{
    assert(a & u64::MAX == a) by (bit_vector);
}

/// Narrowing is commutative.
pub proof fn lemma_narrow_commutative(a: u64, b: u64)
    ensures
        narrow(a, b) == narrow(b, a),
{
    assert(a & b == b & a) by (bit_vector);
}

/// Narrowing is idempotent.
pub proof fn lemma_narrow_idempotent(a: u64)
    ensures
        narrow(a, a) == a,
{
    assert(a & a == a) by (bit_vector);
}

/// A narrowed mask is a submask of either operand.
pub proof fn lemma_narrow_submask(a: u64, b: u64)
    ensures
        submask(narrow(a, b), a),
        submask(narrow(a, b), b),
{
    assert((a & b) & a == a & b) by (bit_vector);
    assert((a & b) & b == a & b) by (bit_vector);
}

/// The submask order is transitive.
pub proof fn lemma_submask_transitive(a: u64, b: u64, c: u64)
    requires
        submask(a, b),
        submask(b, c),
    ensures
        submask(a, c),
{
    assert(a & b == a && b & c == b ==> a & c == a) by (bit_vector);
}

} // verus!
