//! The credential record shared by both account namespaces: offline
//! identities and remote web-service sessions.

use vstd::prelude::*;

verus! {

/// Seconds of lead time before expiry at which a remote session is renewed.
pub const GUARD_WINDOW_SECONDS: i64 = 3600;

/// A successful renewal pushes the expiry this many seconds past the renewal
/// time (two weeks).
pub const RENEWAL_PERIOD_SECONDS: i64 = 1209600;

/// Far-future expiry sentinel given to offline identities, which never need
/// renewal (last second of year 9999, UTC).
pub const OFFLINE_EXPIRES_AT: i64 = 253402300799;

/// One stored credential. `id` is the primary key within a namespace.
pub struct Credential {
    /// Stable 128-bit account identifier.
    pub id: u128,
    /// Opaque bearer string used to authenticate requests.
    pub token: String,
    /// Absolute expiry, unix seconds.
    pub expires_at: i64,
    /// Whether this is the namespace's active credential.
    pub active: bool,
    /// Display name; meaningful for offline identities, empty otherwise.
    pub display_name: String,
}

/// Mathematical value of a `Credential`.
pub ghost struct CredentialV {
    pub id: u128,
    pub token: Seq<char>,
    pub expires_at: int,
    pub active: bool,
    pub display_name: Seq<char>,
}

impl View for Credential {
    type V = CredentialV;

    open spec fn view(&self) -> CredentialV {
        CredentialV {
            id: self.id,
            token: self.token@,
            expires_at: self.expires_at as int,
            active: self.active,
            display_name: self.display_name@,
        }
    }
}

impl Clone for Credential {
    fn clone(&self) -> (r: Self)
        ensures
            r@ == self@,
    {
        Credential {
            id: self.id,
            token: self.token.clone(),
            expires_at: self.expires_at,
            active: self.active,
            display_name: self.display_name.clone(),
        }
    }
}

impl CredentialV {
    /// The same record with the active flag cleared.
    pub open spec fn deactivated(self) -> CredentialV {
        CredentialV { active: false, ..self }
    }

    /// The same record with the active flag set.
    pub open spec fn activated(self) -> CredentialV {
        CredentialV { active: true, ..self }
    }

    /// Equal in everything but possibly the active flag.
    pub open spec fn same_account(self, other: CredentialV) -> bool {
        self.id == other.id && self.token == other.token
            && self.expires_at == other.expires_at
            && self.display_name == other.display_name
    }
}

} // verus!
