//! Node identity: an opaque token assigned once at construction, used for
//! lookup and change detection, distinct from structural equality.

use vstd::prelude::*;

verus! {

/// A node's identity: an opaque 128-bit token, drawn at random when a node
/// is built and never reassigned. Identity equality is the "same data"
/// relation; it says nothing about structure.
#[derive(Clone, Copy, PartialEq, Eq, Structural)]
#[verifier::ext_equal]
pub struct Identity {
    bits: u128,
}

impl View for Identity {
    type V = u128;

    closed spec fn view(&self) -> u128 {
        self.bits
    }
}

impl Identity {
    /// Draws a fresh token. Collision resistance comes from the 128 random
    /// bits; nothing about the value is promised, and nothing may depend on
    /// which value comes back.
    pub fn fresh() -> (r: Identity) {
        Identity { bits: random_bits() }
    }
}

/// Two tokens are equal exactly when their views are.
pub proof fn lemma_identity_view(a: Identity, b: Identity)
    ensures
        (a == b) == (a@ == b@),
{
    if a@ == b@ {
        assert(a =~= b);
    }
}

/// Relies on uuid::Uuid::new_v4, which draws a fresh random identifier, and
/// uuid::Uuid::as_u128, which returns its 128 bits. The value is random, so
/// nothing is promised of it.
#[verifier::external_body]
fn random_bits() -> u128 {
    uuid::Uuid::new_v4().as_u128()
}

} // verus!
