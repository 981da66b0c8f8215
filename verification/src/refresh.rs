//! Expiry-driven session refresh: the guard-window decision, the renewal
//! bookkeeping on success, and the fail-closed discard policy on failure.
//!
//! The network fetch itself is a collaborator owned by the caller: this
//! module decides whether a renewal is due, and applies its outcome once
//! the caller has performed it.

use vstd::prelude::*;
use crate::credential::{Credential, CredentialV, GUARD_WINDOW_SECONDS, RENEWAL_PERIOD_SECONDS};
use crate::manager::{lemma_removed_preserves_others, remove, spec_removed};
use crate::store::{
    CredentialStore, contains_id, lookup, spec_active, spec_upsert,
    lemma_index_of_id, lemma_upsert_preserves_others,
};

verus! {

/// Largest clock value the refresher accepts: pushing an expiry one
/// renewal period past it must still fit a 64-bit timestamp.
pub const MAX_CLOCK_SECONDS: i64 = i64::MAX - RENEWAL_PERIOD_SECONDS;

/// The string under `field` of the JSON object encoded by `bytes`, if the
/// bytes parse to an object carrying a string there; a function of bytes
/// and field alone.
pub uninterp spec fn json_string_field_of(bytes: Seq<u8>, field: Seq<char>) -> Option<Seq<char>>;

/// Relies on serde_json::from_slice::<serde_json::Value>, together with
/// serde_json::Value::get and serde_json::Value::as_str: parses `bytes`
/// as JSON and extracts the string under `field`, if the whole chain
/// succeeds. The parse is a function of the bytes and the field alone.
#[verifier::external_body]
fn json_string_field(bytes: &Vec<u8>, field: &str) -> (r: Option<String>)
    ensures
        match r {
            Some(s) => json_string_field_of(bytes@, field@) == Some(s@),
            None => json_string_field_of(bytes@, field@) is None,
        },
{
    match serde_json::from_slice::<serde_json::Value>(bytes.as_slice()) {
        Ok(v) => match v.get(field) {
            Some(f) => f.as_str().map(|s| s.to_string()),
            None => None,
        },
        Err(_) => None,
    }
}

/// The account id carried by a remote profile response: its "id" string
/// field. Drives the first login, where the remote profile names the
/// account; any other response shape is a parse failure.
pub fn profile_account_id(bytes: &Vec<u8>) -> (r: Option<String>)
    ensures
        match r {
            Some(s) => json_string_field_of(bytes@, "id"@) == Some(s@),
            None => json_string_field_of(bytes@, "id"@) is None,
        },
{
    json_string_field(bytes, "id")
}

/// Whether the credential's expiry lies within the guard window of the
/// clock: the trigger for a renewal attempt.
pub open spec fn spec_expiring(c: CredentialV, now: int) -> bool {
    c.expires_at < now + GUARD_WINDOW_SECONDS
}

/// The renewal token carried by a fetch outcome: none for a transport
/// failure, else the "session" string of the response body, if the body
/// has that shape.
pub open spec fn spec_renewal_token(response: Option<Vec<u8>>) -> Option<Seq<char>> {
    match response {
        Some(bytes) => json_string_field_of(bytes@, "session"@),
        None => None,
    }
}

/// The refreshed form of record `c`: the new token, the expiry one
/// renewal period past `now`, everything else — the active flag included —
/// unchanged.
pub open spec fn spec_refreshed(c: CredentialV, token: Seq<char>, now: int) -> CredentialV {
    CredentialV { token: token, expires_at: now + RENEWAL_PERIOD_SECONDS, ..c }
}

/// What the lookup step of `get_and_refresh` decides.
pub enum RefreshQuery {
    /// No active credential is stored; there is no usable session.
    NoActive,
    /// The active credential, outside the guard window: usable as-is,
    /// no network call.
    Fresh(Credential),
    /// The active credential must be renewed before use; its token
    /// authenticates the renewal request.
    Renew(Credential),
}

/// Decide from the stored state and the clock whether the active
/// credential is usable as-is or due for renewal. Performs no network
/// work and changes nothing.
pub fn refresh_query(store: &CredentialStore, now: i64) -> (r: RefreshQuery)
    requires
        store.wf(),
        0 <= now <= MAX_CLOCK_SECONDS,
    ensures
        match r {
            RefreshQuery::NoActive => spec_active(store@) is None,
            RefreshQuery::Fresh(c) => spec_active(store@) == Some(c@)
                && !spec_expiring(c@, now as int),
            RefreshQuery::Renew(c) => spec_active(store@) == Some(c@)
                && spec_expiring(c@, now as int),
        },
{
    match store.get_active() {
        None => RefreshQuery::NoActive,
        Some(c) => {
            if c.expires_at < now + GUARD_WINDOW_SECONDS {
                RefreshQuery::Renew(c)
            } else {
                RefreshQuery::Fresh(c)
            }
        },
    }
}

/// Apply the outcome of a renewal attempt for the credential with `id`.
/// A response carrying a "session" string renews the record: new token,
/// expiry one renewal period past `now`, active flag unchanged, persisted
/// by upsert. A transport failure (`response` none) or a response of any
/// other shape discards the record through the account manager — the
/// fail-closed policy — and leaves the caller with no usable session.
/// An id no longer stored yields none and changes nothing.
pub fn apply_refresh_outcome(
    store: &mut CredentialStore,
    id: u128,
    response: Option<Vec<u8>>,
    now: i64,
) -> (r: Option<Credential>)
    requires
        old(store).wf(),
        0 <= now <= MAX_CLOCK_SECONDS,
    ensures
        final(store).wf(),
        forall|k: u128| k != id ==> (contains_id(final(store)@, k) <==> contains_id(
            old(store)@,
            k,
        )),
        forall|k: u128| k != id && contains_id(old(store)@, k) ==> #[trigger] lookup(
            final(store)@,
            k,
        ).same_account(lookup(old(store)@, k)),
        !contains_id(old(store)@, id) ==> final(store)@ == old(store)@ && r is None,
        contains_id(old(store)@, id) ==> (match spec_renewal_token(response) {
            Some(t) => ({
                let updated = spec_refreshed(lookup(old(store)@, id), t, now as int);
                &&& final(store)@ == spec_upsert(old(store)@, updated)
                &&& (r matches Some(c) && c@ == updated)
                &&& contains_id(final(store)@, id)
                &&& lookup(final(store)@, id) == updated
            }),
            None => r is None && spec_removed(old(store)@, id, final(store)@),
        }),
{
    let found = store.get(id);
    match found {
        None => None,
        Some(mut c) => {
            let ghost pre = store@;
            proof {
                lemma_index_of_id(pre, id);
            }
            let token = match response {
                Some(bytes) => json_string_field(&bytes, "session"),
                None => None,
            };
            match token {
                Some(t) => {
                    c.token = t;
                    c.expires_at = now + RENEWAL_PERIOD_SECONDS;
                    let ghost cv = c@;
                    let out = c.clone();
                    store.upsert(c);
                    proof {
                        assert(cv == spec_refreshed(lookup(pre, id), cv.token, now as int));
                        assert forall|k: u128| k != id implies (contains_id(store@, k)
                            <==> contains_id(pre, k)) by {
                            lemma_upsert_preserves_others(pre, cv, k);
                        }
                        assert forall|k: u128| k != id && contains_id(pre, k) implies #[trigger]
                            lookup(store@, k).same_account(lookup(pre, k)) by {
                            lemma_upsert_preserves_others(pre, cv, k);
                        }
                    }
                    Some(out)
                },
                None => {
                    // Discard through the account manager, which restores a
                    // usable active account where one remains.
                    remove(store, id);
                    proof {
                        assert forall|k: u128| k != id implies (contains_id(store@, k)
                            <==> contains_id(pre, k)) by {
                            lemma_removed_preserves_others(pre, id, store@, k);
                        }
                        assert forall|k: u128| k != id && contains_id(pre, k) implies #[trigger]
                            lookup(store@, k).same_account(lookup(pre, k)) by {
                            lemma_removed_preserves_others(pre, id, store@, k);
                        }
                    }
                    None
                },
            }
        },
    }
}

/// Whether a batch of outcomes names `id`.
pub open spec fn batch_mentions(outcomes: Seq<(u128, Option<Vec<u8>>)>, id: u128) -> bool {
    exists|i: int| 0 <= i < outcomes.len() && outcomes[i].0 == id
}

/// Each account appears at most once in the batch.
pub open spec fn distinct_batch_ids(outcomes: Seq<(u128, Option<Vec<u8>>)>) -> bool {
    forall|i: int, j: int|
        0 <= i < outcomes.len() && 0 <= j < outcomes.len() && i != j
            ==> outcomes[i].0 != outcomes[j].0
}

/// Enumerate every stored account for a forced renewal attempt, active or
/// not, bypassing the guard window: each record's id and current bearer
/// token. Changes nothing.
#[verifier::loop_isolation(false)]
pub fn refresh_all_plan(store: &CredentialStore) -> (r: Vec<(u128, String)>)
    ensures
        r@.len() == store@.len(),
        forall|i: int| 0 <= i < r@.len() ==> r@[i].0 == store@[i].id
            && r@[i].1@ == store@[i].token,
{
    let all = store.get_all();
    let mut out: Vec<(u128, String)> = Vec::new();
    let mut i: usize = 0;
    while i < all.len()
        invariant
            0 <= i <= all.len(),
            out@.len() == i,
            forall|k: int| 0 <= k < i ==> out@[k].0 == store@[k].id
                && out@[k].1@ == store@[k].token,
        decreases all.len() - i,
    {
        out.push((all[i].id, all[i].token.clone()));
        i += 1;
    }
    out
}

/// Apply the outcomes of a batch of forced renewals, one per account.
/// Failures are isolated: every outcome is applied whatever became of the
/// ones before it, and none is propagated as an error. An account whose
/// outcome carries a renewal token ends refreshed and persisted; one
/// whose outcome does not is discarded; accounts the batch does not name
/// keep their content, at most their active flag moved by promotion.
#[verifier::loop_isolation(false)]
pub fn refresh_all_apply(
    store: &mut CredentialStore,
    outcomes: Vec<(u128, Option<Vec<u8>>)>,
    now: i64,
)
    requires
        old(store).wf(),
        0 <= now <= MAX_CLOCK_SECONDS,
        distinct_batch_ids(outcomes@),
    ensures
        final(store).wf(),
        forall|k: u128| #[trigger] contains_id(final(store)@, k) ==> contains_id(old(store)@, k),
        forall|k: u128| #![trigger contains_id(old(store)@, k)]
            contains_id(old(store)@, k) && !batch_mentions(outcomes@, k)
                ==> contains_id(final(store)@, k) && lookup(final(store)@, k).same_account(
                    lookup(old(store)@, k),
                ),
        forall|i: int| 0 <= i < outcomes@.len() ==> (match spec_renewal_token(
            #[trigger] outcomes@[i].1,
        ) {
            Some(t) => contains_id(old(store)@, outcomes@[i].0) ==> (contains_id(
                final(store)@,
                outcomes@[i].0,
            ) && lookup(final(store)@, outcomes@[i].0).token == t && lookup(
                final(store)@,
                outcomes@[i].0,
            ).expires_at == now + RENEWAL_PERIOD_SECONDS),
            None => !contains_id(final(store)@, outcomes@[i].0),
        }),
{
    let ghost pre0 = old(store)@;
    let ghost all = outcomes@;
    let mut rest = outcomes;
    proof {
        assert(rest@ =~= all.subrange(0, rest@.len() as int));
    }
    while rest.len() > 0
        invariant
            store.wf(),
            rest@ == all.subrange(0, rest@.len() as int),
            rest@.len() <= all.len(),
            forall|k: u128| #[trigger] contains_id(store@, k) ==> contains_id(pre0, k),
            forall|k: u128| #![trigger contains_id(pre0, k)]
                contains_id(pre0, k) && !batch_mentions(
                    all.subrange(rest@.len() as int, all.len() as int),
                    k,
                ) ==> contains_id(store@, k) && lookup(store@, k).same_account(
                    lookup(pre0, k),
                ),
            forall|i: int| rest@.len() <= i < all.len() ==> (match spec_renewal_token(
                #[trigger] all[i].1,
            ) {
                Some(t) => contains_id(pre0, all[i].0) ==> (contains_id(store@, all[i].0)
                    && lookup(store@, all[i].0).token == t && lookup(store@, all[i].0).expires_at
                    == now + RENEWAL_PERIOD_SECONDS),
                None => !contains_id(store@, all[i].0),
            }),
        decreases rest@.len(),
    {
        let ghost len_before: int = rest@.len() as int;
        let ghost processed_before = all.subrange(len_before, all.len() as int);
        let (id, resp) = rest.pop().unwrap();
        proof {
            assert(rest@ =~= all.subrange(0, rest@.len() as int));
            assert((id, resp) == all[len_before - 1]);
        }
        let ghost mid = store@;
        let _ = apply_refresh_outcome(store, id, resp, now);
        proof {
            let processed_now = all.subrange(len_before - 1, all.len() as int);
            // the freshly applied account was not among those already done
            assert(!batch_mentions(processed_before, id)) by {
                assert forall|t: int| 0 <= t < processed_before.len()
                    implies processed_before[t].0 != id by {
                    assert(processed_before[t] == all[len_before + t]);
                }
            }
            // an id is mentioned now iff it was mentioned before or is `id`
            assert forall|k: u128| !batch_mentions(processed_now, k)
                implies !batch_mentions(processed_before, k) && k != id by {
                assert(processed_now[0] == all[len_before - 1]);
                assert forall|t: int| 0 <= t < processed_before.len()
                    implies processed_before[t] == processed_now[t + 1] by {
                    assert(processed_before[t] == all[len_before + t]);
                    assert(processed_now[t + 1] == all[len_before + t]);
                }
                if batch_mentions(processed_before, k) {
                    let t = choose|t: int| 0 <= t < processed_before.len()
                        && processed_before[t].0 == k;
                    assert(processed_now[t + 1].0 == k);
                }
            }
            // no account appears that was not stored at the start
            assert forall|k: u128| #[trigger] contains_id(store@, k) implies contains_id(
                pre0,
                k,
            ) by {
                if k != id {
                    assert(contains_id(mid, k));
                } else {
                    if !contains_id(mid, id) {
                        assert(store@ == mid);
                    }
                    assert(contains_id(mid, id));
                }
            }
            // accounts the batch never names keep their content
            assert forall|k: u128| #![trigger contains_id(pre0, k)]
                contains_id(pre0, k) && !batch_mentions(processed_now, k)
                implies contains_id(store@, k) && lookup(store@, k).same_account(
                lookup(pre0, k),
            ) by {
                assert(!batch_mentions(processed_before, k) && k != id);
                assert(contains_id(mid, k) && lookup(mid, k).same_account(lookup(pre0, k)));
                assert(contains_id(store@, k));
                assert(lookup(store@, k).same_account(lookup(mid, k)));
            }
            // the claims for accounts done earlier survive this application
            assert forall|i: int| len_before <= i < all.len() implies (match spec_renewal_token(
                #[trigger] all[i].1,
            ) {
                Some(t) => contains_id(pre0, all[i].0) ==> (contains_id(store@, all[i].0)
                    && lookup(store@, all[i].0).token == t && lookup(store@, all[i].0).expires_at
                    == now + RENEWAL_PERIOD_SECONDS),
                None => !contains_id(store@, all[i].0),
            }) by {
                assert(all[i].0 != id);
                let k = all[i].0;
                if contains_id(mid, k) {
                    assert(lookup(store@, k).same_account(lookup(mid, k)));
                }
            }
            // the claim for the account just applied
            if contains_id(pre0, id) {
                assert(!batch_mentions(processed_before, id));
                assert(contains_id(mid, id) && lookup(mid, id).same_account(lookup(pre0, id)));
            }
        }
    }
    proof {
        assert(rest@.len() == 0);
        assert(all.subrange(0, all.len() as int) =~= all);
    }
}

} // verus!
