//! Offline identity derivation: a stable 128-bit identifier computed from
//! a display name alone, with no network dependency.

use vstd::prelude::*;
use crate::credential::{Credential, OFFLINE_EXPIRES_AT};

verus! {

/// The 128-bit identifier that version-5 UUID derivation over the DNS
/// namespace assigns to a name; a function of the name alone.
pub uninterp spec fn offline_id_of(name: Seq<char>) -> u128;

/// Relies on uuid::Uuid::new_v5 with uuid::Uuid::NAMESPACE_DNS — a SHA-1
/// digest over namespace and name bytes, a function of the name alone —
/// and on uuid::Uuid::as_u128 for the integer form.
#[verifier::external_body]
fn derive_offline_id(name: &str) -> (r: u128)
    ensures
        r == offline_id_of(name@),
{
    uuid::Uuid::new_v5(&uuid::Uuid::NAMESPACE_DNS, name.as_bytes()).as_u128()
}

/// Derives offline (locally usable) identities.
pub struct IdentityFactory;

impl IdentityFactory {
    /// Deterministically derive the offline credential for `name`: the id
    /// is a pure function of the name, the token a fixed offline marker,
    /// the expiry the far-future sentinel, and the record comes active.
    /// Persisting it is the caller's concern.
    pub fn derive(name: &str) -> (r: Credential)
        ensures
            r@.id == offline_id_of(name@),
            r@.token == "offline"@,
            r@.expires_at == OFFLINE_EXPIRES_AT as int,
            r@.active,
            r@.display_name == name@,
    {
        Credential {
            id: derive_offline_id(name),
            token: "offline".to_string(),
            expires_at: OFFLINE_EXPIRES_AT,
            active: true,
            display_name: name.to_string(),
        }
    }
}

/// Law: offline identity derivation is deterministic — equal names give
/// equal identifiers, on every call.
pub proof fn lemma_offline_id_deterministic(a: Seq<char>, b: Seq<char>)
    requires
        a == b,
    ensures
        offline_id_of(a) == offline_id_of(b),
{
}

} // verus!
