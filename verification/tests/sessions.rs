use account_sessions::credential::{
    Credential, GUARD_WINDOW_SECONDS, OFFLINE_EXPIRES_AT, RENEWAL_PERIOD_SECONDS,
};
use account_sessions::identity::IdentityFactory;
use account_sessions::manager::{get_active_id, remove, set_active, AuthError};
use account_sessions::refresh::{
    apply_refresh_outcome, profile_account_id, refresh_all_apply, refresh_all_plan,
    refresh_query, RefreshQuery,
};
use account_sessions::store::CredentialStore;

fn cred(id: u128, token: &str, expires_at: i64, active: bool) -> Credential {
    Credential {
        id,
        token: token.to_string(),
        expires_at,
        active,
        display_name: String::new(),
    }
}

fn active_count(store: &CredentialStore) -> usize {
    store.get_all().iter().filter(|c| c.active).count()
}

#[test]
fn single_active_across_upserts() {
    let mut s = CredentialStore::new();
    s.upsert(cred(1, "a", 100, true));
    assert_eq!(active_count(&s), 1);
    s.upsert(cred(2, "b", 100, true));
    assert_eq!(active_count(&s), 1);
    assert_eq!(get_active_id(&s), Some(2));
    s.upsert(cred(3, "c", 100, true));
    assert_eq!(active_count(&s), 1);
    assert_eq!(get_active_id(&s), Some(3));
    s.upsert(cred(4, "d", 100, false));
    assert_eq!(active_count(&s), 1);
    assert_eq!(get_active_id(&s), Some(3));
    assert_eq!(s.get_all().len(), 4);
}

#[test]
fn single_active_across_set_active() {
    let mut s = CredentialStore::new();
    s.upsert(cred(1, "a", 100, true));
    s.upsert(cred(2, "b", 100, false));
    s.upsert(cred(3, "c", 100, false));
    assert_eq!(set_active(&mut s, 2), Ok(()));
    assert_eq!(active_count(&s), 1);
    assert_eq!(get_active_id(&s), Some(2));
    let one = s.get(1).unwrap();
    assert!(!one.active);
    assert_eq!(one.token, "a");
}

#[test]
fn set_active_unknown_id_fails() {
    let mut s = CredentialStore::new();
    s.upsert(cred(1, "a", 100, true));
    assert_eq!(set_active(&mut s, 9), Err(AuthError::NotFound));
    assert_eq!(get_active_id(&s), Some(1));
    assert_eq!(s.get_all().len(), 1);
}

#[test]
fn upsert_replaces_by_id() {
    let mut s = CredentialStore::new();
    s.upsert(cred(1, "first", 100, true));
    s.upsert(cred(1, "second", 200, false));
    let all = s.get_all();
    assert_eq!(all.len(), 1);
    assert_eq!(all[0].token, "second");
    assert_eq!(all[0].expires_at, 200);
    assert!(!all[0].active);
}

#[test]
fn derive_is_deterministic() {
    let a = IdentityFactory::derive("Steve");
    let b = IdentityFactory::derive("Steve");
    assert_eq!(a.id, b.id);
    assert!(a.active);
    assert_eq!(a.token, "offline");
    assert_eq!(a.expires_at, OFFLINE_EXPIRES_AT);
    assert_eq!(a.display_name, "Steve");
}

#[test]
fn derive_distinct_names_distinct_ids() {
    let a = IdentityFactory::derive("Steve");
    let b = IdentityFactory::derive("Alex");
    assert_ne!(a.id, b.id);
}

#[test]
fn promotion_on_removal() {
    let mut s = CredentialStore::new();
    s.upsert(cred(1, "a", 100, true));
    s.upsert(cred(2, "b", 100, false));
    remove(&mut s, 1);
    assert_eq!(get_active_id(&s), Some(2));
    assert_eq!(s.get_all().len(), 1);
}

#[test]
fn removal_of_inactive_keeps_active() {
    let mut s = CredentialStore::new();
    s.upsert(cred(1, "a", 100, true));
    s.upsert(cred(2, "b", 100, false));
    remove(&mut s, 2);
    assert_eq!(get_active_id(&s), Some(1));
    assert_eq!(s.get_all().len(), 1);
}

#[test]
fn empty_store_convergence() {
    let mut s = CredentialStore::new();
    s.upsert(cred(1, "a", 100, true));
    remove(&mut s, 1);
    assert_eq!(get_active_id(&s), None);
    assert!(s.get_active().is_none());
    assert_eq!(s.get_all().len(), 0);
}

#[test]
fn idempotent_removal() {
    let mut s = CredentialStore::new();
    s.upsert(cred(1, "a", 100, true));
    remove(&mut s, 42);
    assert_eq!(get_active_id(&s), Some(1));
    assert_eq!(s.get_all().len(), 1);
    let mut empty = CredentialStore::new();
    remove(&mut empty, 42);
    assert_eq!(empty.get_all().len(), 0);
}

#[test]
fn query_fresh_credential_untouched() {
    let mut s = CredentialStore::new();
    let now: i64 = 1_000_000;
    s.upsert(cred(7, "tok", now + GUARD_WINDOW_SECONDS + 10, true));
    match refresh_query(&s, now) {
        RefreshQuery::Fresh(c) => {
            assert_eq!(c.id, 7);
            assert_eq!(c.token, "tok");
        }
        _ => panic!("expected a fresh credential"),
    }
}

#[test]
fn query_expiring_credential_needs_renewal() {
    let mut s = CredentialStore::new();
    let now: i64 = 1_000_000;
    s.upsert(cred(7, "tok", now + 1800, true));
    match refresh_query(&s, now) {
        RefreshQuery::Renew(c) => {
            assert_eq!(c.id, 7);
            assert_eq!(c.token, "tok");
        }
        _ => panic!("expected a renewal request"),
    }
}

#[test]
fn query_empty_store_no_active() {
    let s = CredentialStore::new();
    assert!(matches!(refresh_query(&s, 0), RefreshQuery::NoActive));
}

#[test]
fn refresh_extends_expiry() {
    let mut s = CredentialStore::new();
    let now: i64 = 1_000_000;
    s.upsert(cred(7, "old", now + 1800, true));
    let body = b"{\"session\":\"newtok\"}".to_vec();
    let r = apply_refresh_outcome(&mut s, 7, Some(body), now).unwrap();
    assert_eq!(r.token, "newtok");
    assert_eq!(r.expires_at, now + RENEWAL_PERIOD_SECONDS);
    assert!(r.active);
    let stored = s.get_active().unwrap();
    assert_eq!(stored.token, "newtok");
    assert_eq!(stored.expires_at, now + RENEWAL_PERIOD_SECONDS);
}

#[test]
fn refresh_keeps_inactive_flag() {
    let mut s = CredentialStore::new();
    let now: i64 = 1_000_000;
    s.upsert(cred(7, "old", now + 1800, false));
    let body = b"{\"session\":\"newtok\"}".to_vec();
    let r = apply_refresh_outcome(&mut s, 7, Some(body), now).unwrap();
    assert!(!r.active);
    assert!(!s.get(7).unwrap().active);
}

#[test]
fn discard_on_transport_failure() {
    let mut s = CredentialStore::new();
    let now: i64 = 1_000_000;
    s.upsert(cred(7, "old", now + 1800, true));
    let r = apply_refresh_outcome(&mut s, 7, None, now);
    assert!(r.is_none());
    assert!(s.get(7).is_none());
    assert!(s.get_active().is_none());
}

#[test]
fn discard_on_unparseable_payload() {
    let mut s = CredentialStore::new();
    let now: i64 = 1_000_000;
    s.upsert(cred(7, "old", now + 1800, true));
    let r = apply_refresh_outcome(&mut s, 7, Some(b"not json at all".to_vec()), now);
    assert!(r.is_none());
    assert!(s.get(7).is_none());
}

#[test]
fn discard_on_wrong_shape() {
    let mut s = CredentialStore::new();
    let now: i64 = 1_000_000;
    s.upsert(cred(7, "old", now + 1800, true));
    let r = apply_refresh_outcome(&mut s, 7, Some(b"{\"other\":\"x\"}".to_vec()), now);
    assert!(r.is_none());
    assert!(s.get(7).is_none());
}

#[test]
fn discard_promotes_a_survivor() {
    let mut s = CredentialStore::new();
    let now: i64 = 1_000_000;
    s.upsert(cred(1, "a", now + 1800, true));
    s.upsert(cred(2, "b", now + 1800, false));
    assert_eq!(get_active_id(&s), Some(1));
    let r = apply_refresh_outcome(&mut s, 1, None, now);
    assert!(r.is_none());
    assert!(s.get(1).is_none());
    assert_eq!(get_active_id(&s), Some(2));
}

#[test]
fn batch_isolation() {
    let mut s = CredentialStore::new();
    let now: i64 = 1_000_000;
    s.upsert(cred(1, "x-old", now + 1800, true));
    s.upsert(cred(2, "y-old", now + 1800, false));
    s.upsert(cred(3, "z-old", now + 1800, false));
    let outcomes = vec![
        (1u128, Some(b"{\"session\":\"x-new\"}".to_vec())),
        (2u128, None),
    ];
    refresh_all_apply(&mut s, outcomes, now);
    let x = s.get(1).unwrap();
    assert_eq!(x.token, "x-new");
    assert_eq!(x.expires_at, now + RENEWAL_PERIOD_SECONDS);
    assert!(s.get(2).is_none());
    let z = s.get(3).unwrap();
    assert_eq!(z.token, "z-old");
    assert_eq!(z.expires_at, now + 1800);
}

#[test]
fn profile_id_extracted_from_response() {
    let body = b"{\"id\":\"abcdef12\",\"username\":\"steve\"}".to_vec();
    assert_eq!(profile_account_id(&body), Some("abcdef12".to_string()));
    assert_eq!(profile_account_id(&b"{\"username\":\"steve\"}".to_vec()), None);
    assert_eq!(profile_account_id(&b"garbage".to_vec()), None);
}

#[test]
fn plan_lists_every_account() {
    let mut s = CredentialStore::new();
    s.upsert(cred(1, "a", 100, true));
    s.upsert(cred(2, "b", 100, false));
    let mut plan = refresh_all_plan(&s);
    plan.sort_by_key(|e| e.0);
    assert_eq!(plan.len(), 2);
    assert_eq!(plan[0], (1u128, "a".to_string()));
    assert_eq!(plan[1], (2u128, "b".to_string()));
}
