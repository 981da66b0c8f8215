//! Account session management for a client application that keeps several
//! third-party identities on hand: offline identities derived locally and
//! remote web-service sessions.
//!
//! The library guarantees, per namespace, that at most one stored
//! credential is active, maintains that invariant across inserts, explicit
//! switches and removals (promoting a survivor when the active account is
//! removed), derives offline identities deterministically, and drives the
//! expiry-based renewal of remote sessions, discarding a credential whose
//! renewal fails rather than keeping a half-alive session.

pub mod credential;
pub mod identity;
pub mod manager;
pub mod refresh;
pub mod store;
