//! Identifiers of nodes, pages and windows.

use vstd::prelude::*;

verus! {

/// The identity of a node, a page or a window. Two of them are the same
/// identity exactly when their values are equal.
#[derive(Debug, Clone, Copy, PartialEq, Eq, Hash, PartialOrd, Ord, Structural)]
pub struct RenderId(u128);

/// Calls `uuid::Uuid::new_v4` and hands back the identifier's 128 bits as
/// `uuid::Uuid::as_u128` gives them. The bits come from the system's random
/// source, so nothing is known of them but the version and variant marks
/// that `new_v4` sets; where the system has no random bytes to give, `new_v4`
/// panics.
#[verifier::external_body]
fn random_uuid_bits() -> (bits: u128)
    ensures
        RenderId::marked_random(bits),
{
    uuid::Uuid::new_v4().as_u128()
}

impl RenderId {
    /// The 128 bits that make up this identity.
    pub closed spec fn value(self) -> u128 {
        self.0
    }

    /// Whether the bits carry the marks of a random identifier: version 4,
    /// variant 1.
    pub open spec fn marked_random(bits: u128) -> bool {
        bits & 0xF000_C000_0000_0000_0000u128 == 0x4000_8000_0000_0000_0000u128
    }

    /// Mints a fresh identity from random bits.
    pub fn new() -> (id: Self)
        ensures
            Self::marked_random(id.value()),
    {
        RenderId(random_uuid_bits())
    }

    /// The 128 bits that make up this identity.
    pub fn as_u128(&self) -> (bits: u128)
        ensures
            bits == self.value(),
    {
        self.0
    }
}

impl Default for RenderId {
    fn default() -> (id: Self)
        ensures
            Self::marked_random(id.value()),
    {
        Self::new()
    }
}

/// Identities are equal exactly when their bits are.
pub proof fn lemma_id_equal_by_value(a: RenderId, b: RenderId)
    ensures
        (a == b) == (a.value() == b.value()),
{
}

} // verus!
