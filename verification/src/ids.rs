//! Identities and the canonical key of an unordered pair of identities.
//!
//! The host names every user by an opaque 256-bit key. The core never
//! inspects such a key beyond equality and a fixed total order, so it is
//! modeled here as two 128-bit halves compared lexicographically.
//!
//! Symmetric relations (friendship, friend requests) are looked up by a
//! canonical key formed by ordering the two identities before combining
//! them, so that the same two identities always yield the same key
//! regardless of the order in which a caller supplies them.

use vstd::prelude::*;

verus! {

/// An opaque identity supplied by the host: a 256-bit value held as two
/// 128-bit halves, `hi` being the more significant one.
#[derive(Clone, Copy, PartialEq, Eq, Structural, Debug, Hash)]
pub struct UserId {
    pub hi: u128,
    pub lo: u128,
}

impl UserId {
    /// The fixed total order on identities: lexicographic on (hi, lo).
    pub open spec fn spec_lt(self, other: UserId) -> bool {
        self.hi < other.hi || (self.hi == other.hi && self.lo < other.lo)
    }

    pub fn lt(&self, other: &UserId) -> (r: bool)
        ensures
            r == self.spec_lt(*other),
    {
        self.hi < other.hi || (self.hi == other.hi && self.lo < other.lo)
    }
}

/// An unordered pair of identities in canonical form: `id_a` is the
/// smaller of the two under the total order on identities (or equal to
/// `id_b` when the pair is degenerate).
#[derive(Clone, Copy, PartialEq, Eq, Structural, Debug, Hash)]
pub struct TwoUsers {
    pub id_a: UserId,
    pub id_b: UserId,
}

/// The canonical key of the unordered pair {a, b}: the two identities in
/// ascending order under the total order on identities.
pub open spec fn canonical_pair(a: UserId, b: UserId) -> TwoUsers {
    if b.spec_lt(a) {
        TwoUsers { id_a: b, id_b: a }
    } else {
        TwoUsers { id_a: a, id_b: b }
    }
}

impl TwoUsers {
    /// A pair is canonical when its components are in ascending order.
    pub open spec fn wf(self) -> bool {
        self.id_a.spec_lt(self.id_b) || self.id_a == self.id_b
    }

    /// Order the two identities before forming the key, so both call
    /// orders produce the same key.
    pub fn new(id_a: UserId, id_b: UserId) -> (r: TwoUsers)
        ensures
            r == canonical_pair(id_a, id_b),
            r.wf(),
    {
        if id_b.lt(&id_a) {
            TwoUsers { id_a: id_b, id_b: id_a }
        } else {
            TwoUsers { id_a, id_b }
        }
    }
}

/// Law: canonicalization is commutative — the canonical key of a pair of
/// identities does not depend on the order in which they are supplied.
pub proof fn lemma_canonical_pair_commutes(a: UserId, b: UserId)
    ensures
        canonical_pair(a, b) == canonical_pair(b, a),
{
    if !a.spec_lt(b) && !b.spec_lt(a) {
        assert(a == b);
    }
}

} // verus!
