//! Correlation-identifier rewriting. Many clients share one backend
//! connection, so a client-scoped request identifier is rewritten to a
//! backend-scoped one by XOR with a per-client salt derived from the client's
//! identity string. XOR with the same salt is its own inverse, so the same
//! operation restores the original identifier on the response leg.

use vstd::prelude::*;

verus! {

/// The 32-bit salt derived from a client identity string. Abstract: the
/// digest of the standard hasher is not written out here; all that matters
/// is that one identity always yields one salt.
pub uninterp spec fn salt_of(s: Seq<char>) -> u32;

/// A client-scoped identifier rewritten under a salt (and, applied again,
/// restored: XOR is its own inverse).
pub open spec fn spec_rewrite(id: u32, salt: u32) -> u32 {
    id ^ salt
}

/// Relies on std's `DefaultHasher`: `DefaultHasher::new`, `Hash::hash` for
/// `str`, and `Hasher::finish`. Hashers made by `DefaultHasher::new` are
/// documented to be identical to one another, so the digest — and with it
/// this salt — depends on the characters of the identity alone.
#[verifier::external_body]
pub(crate) fn client_salt(client_id: &str) -> (r: u32)
    ensures
        r == salt_of(client_id@),
{
    let mut hasher = std::collections::hash_map::DefaultHasher::new();
    std::hash::Hash::hash(client_id, &mut hasher);
    std::hash::Hasher::finish(&hasher) as u32
}

/// Maps a correlation identifier between its client-scoped and
/// backend-scoped forms: XOR with the salt of the client identity. The same
/// call in the other direction undoes the first.
pub fn hash_id(request_id: u32, client_id: &str) -> (r: u32)
    ensures
        r == spec_rewrite(request_id, salt_of(client_id@)),
{
    let salt: u32 = client_salt(client_id);
    request_id ^ salt
}

/// Rewriting under a salt and rewriting again restores the identifier:
/// the rewrite is a bijection on the identifier space for a fixed salt.
pub proof fn lemma_rewrite_involution(id: u32, salt: u32)
    ensures
        spec_rewrite(spec_rewrite(id, salt), salt) == id,
{
    assert((id ^ salt) ^ salt == id) by (bit_vector);
}

/// Round-trip rewrite: for every identifier and every client identity,
/// restoring a rewritten identifier with the same identity gives the
/// original back.
pub proof fn lemma_rewrite_round_trip(id: u32, client_id: Seq<char>)
    ensures
        spec_rewrite(spec_rewrite(id, salt_of(client_id)), salt_of(client_id)) == id,
{
    lemma_rewrite_involution(id, salt_of(client_id));
}

/// Two clients whose salts differ never rewrite the same identifier to the
/// same backend-scoped identifier.
pub proof fn lemma_rewrite_distinct_salts(id: u32, salt_a: u32, salt_b: u32)
    requires
        salt_a != salt_b,
    ensures
        spec_rewrite(id, salt_a) != spec_rewrite(id, salt_b),
{
    assert(salt_a != salt_b ==> (id ^ salt_a) != (id ^ salt_b)) by (bit_vector);
}

} // verus!
