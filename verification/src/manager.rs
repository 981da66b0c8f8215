//! Active-account management: explicit activation, removal with the
//! promotion policy, and the active-id read-through.

use vstd::prelude::*;
use crate::credential::CredentialV;
use crate::store::{
    CredentialStore, contains_id, index_of_id, lookup, spec_active, store_wf,
    deactivate_all, lemma_index_of_id, lemma_index_of_id_unique,
};

verus! {

/// Failure of an account-management operation.
#[derive(Clone, Copy, Debug, PartialEq, Eq, Structural)]
pub enum AuthError {
    /// The operation referenced an account id absent from the store.
    NotFound,
}

/// Make the record with `id` the namespace's single active credential.
/// Every other record keeps its content and loses the active flag; an
/// unknown id fails with `NotFound` and changes nothing.
pub fn set_active(store: &mut CredentialStore, id: u128) -> (r: Result<(), AuthError>)
    requires
        old(store).wf(),
    ensures
        final(store).wf(),
        match r {
            Ok(_) => contains_id(old(store)@, id)
                && final(store)@.len() == old(store)@.len()
                && (forall|k: int| 0 <= k < old(store)@.len() ==> final(store)@[k] == (
                    if old(store)@[k].id == id {
                        old(store)@[k].activated()
                    } else {
                        old(store)@[k].deactivated()
                    }
                ))
                && spec_active(final(store)@) == Some(lookup(old(store)@, id).activated()),
            Err(e) => e == AuthError::NotFound && !contains_id(old(store)@, id)
                && final(store)@ == old(store)@,
        },
{
    match store.get(id) {
        None => Err(AuthError::NotFound),
        Some(mut c) => {
            c.active = true;
            let ghost pre = store@;
            let ghost cv = c@;
            store.upsert(c);
            proof {
                lemma_index_of_id(pre, id);
                let j = index_of_id(pre, id);
                assert forall|k: int| 0 <= k < pre.len() implies store@[k] == (
                    if pre[k].id == id {
                        pre[k].activated()
                    } else {
                        pre[k].deactivated()
                    }
                ) by {
                    if k != j {
                        assert(pre[k].id != pre[j].id);
                    }
                }
            }
            Ok(())
        },
    }
}

/// How a removal relates the stored contents before and after: an absent
/// id changes nothing; otherwise the record leaves the store, and, when it
/// was the active one and others remain, exactly one arbitrary remaining
/// record is promoted to active.
pub open spec fn spec_removed(pre: Seq<CredentialV>, id: u128, post: Seq<CredentialV>) -> bool {
    if !contains_id(pre, id) {
        post == pre
    } else {
        !contains_id(post, id) && {
            let rest = pre.remove(index_of_id(pre, id));
            if lookup(pre, id).active && rest.len() > 0 {
                exists|k: int| 0 <= k < rest.len()
                    && post == rest.update(k, rest[k].activated())
            } else {
                post == rest
            }
        }
    }
}

/// Remove the record with `id`. An absent id is a no-op. If the removed
/// record was the active one and at least one record remains, one
/// arbitrary remaining record is promoted to active, so that the
/// namespace keeps a usable identity; if none remains, the namespace has
/// no active credential.
pub fn remove(store: &mut CredentialStore, id: u128)
    requires
        old(store).wf(),
    ensures
        final(store).wf(),
        spec_removed(old(store)@, id, final(store)@),
{
    match store.get(id) {
        None => {},
        Some(c) => {
            let ghost pre = store@;
            let ghost j = index_of_id(pre, id);
            proof {
                lemma_index_of_id(pre, id);
            }
            store.remove(id);
            let ghost rest = store@;
            if c.active && store.len() > 0 {
                let survivors = store.get_all();
                let mut p = survivors[0].clone();
                p.active = true;
                let ghost pv = p@;
                store.upsert(p);
                proof {
                    assert(pv == rest[0].activated());
                    lemma_index_of_id_unique(rest, pv.id, 0);
                    assert(forall|k: int| 0 <= k < rest.len() ==> !rest[k].active) by {
                        assert(forall|k: int| 0 <= k < rest.len() ==> rest[k] == pre[
                            if k < j {
                                k
                            } else {
                                k + 1
                            }
                        ]);
                    }
                    assert(deactivate_all(rest) =~= rest);
                    assert(contains_id(rest, pv.id)) by {
                        assert(rest[0].id == pv.id);
                    }
                    assert(store@ == rest.update(0, rest[0].activated()));
                    assert(!contains_id(store@, id)) by {
                        assert forall|k: int| 0 <= k < store@.len()
                            implies store@[k].id != id by {
                            assert(store@[k].id == rest[k].id);
                        }
                    }
                }
            }
        },
    }
}

/// Law: removing the active account while others remain promotes one of
/// the remaining accounts — afterwards some other stored account is the
/// active one.
pub proof fn lemma_promotion_on_removal(pre: Seq<CredentialV>, id: u128, post: Seq<CredentialV>)
    requires
        store_wf(pre),
        store_wf(post),
        spec_removed(pre, id, post),
        contains_id(pre, id),
        lookup(pre, id).active,
        pre.len() >= 2,
    ensures
        spec_active(post) matches Some(c) && contains_id(pre, c.id) && c.id != id,
{
    let j = index_of_id(pre, id);
    lemma_index_of_id(pre, id);
    let rest = pre.remove(j);
    let k = choose|k: int| 0 <= k < rest.len() && post == rest.update(k, rest[k].activated());
    assert(post == rest.update(k, rest[k].activated()));
    assert(post[k].active);
    let w = choose|i: int| 0 <= i < post.len() && post[i].active;
    assert(w == k);
    assert(post[k].id == rest[k].id);
    assert(rest[k] == pre[
        if k < j {
            k
        } else {
            k + 1
        }
    ]);
    assert(contains_id(pre, post[k].id));
}

/// Law: removing the only remaining account leaves the namespace empty,
/// with no active credential to return.
pub proof fn lemma_empty_store_convergence(pre: Seq<CredentialV>, id: u128, post: Seq<CredentialV>)
    requires
        store_wf(pre),
        spec_removed(pre, id, post),
        contains_id(pre, id),
        pre.len() == 1,
    ensures
        post.len() == 0,
        spec_active(post) is None,
{
    lemma_index_of_id(pre, id);
    crate::store::lemma_empty_no_active(post);
}

/// A removal of `id` leaves every other account in place, its content
/// unchanged but for possibly the active flag.
pub proof fn lemma_removed_preserves_others(
    pre: Seq<CredentialV>,
    id: u128,
    post: Seq<CredentialV>,
    k: u128,
)
    requires
        store_wf(pre),
        store_wf(post),
        spec_removed(pre, id, post),
        k != id,
    ensures
        contains_id(post, k) <==> contains_id(pre, k),
        contains_id(pre, k) ==> lookup(post, k).same_account(lookup(pre, k)),
{
    if contains_id(pre, id) {
        let j = index_of_id(pre, id);
        lemma_index_of_id(pre, id);
        let rest = pre.remove(j);
        assert(forall|t: int| 0 <= t < rest.len() ==> rest[t] == pre[
            if t < j {
                t
            } else {
                t + 1
            }
        ]);
        assert(forall|t: int| 0 <= t < post.len() ==> post[t].id == rest[t].id
            && post[t].same_account(rest[t])) by {
            if lookup(pre, id).active && rest.len() > 0 {
                let k0 = choose|t: int| 0 <= t < rest.len()
                    && post == rest.update(t, rest[t].activated());
                assert(post == rest.update(k0, rest[k0].activated()));
            }
        }
        if contains_id(pre, k) {
            let m = index_of_id(pre, k);
            lemma_index_of_id(pre, k);
            assert(m != j);
            let m2: int = if m < j {
                m
            } else {
                m - 1
            };
            assert(rest[m2] == pre[m]);
            assert(post[m2].id == k && post[m2].same_account(pre[m]));
            assert(contains_id(post, k));
            lemma_index_of_id_unique(post, k, m2);
        }
        if contains_id(post, k) {
            let m2 = index_of_id(post, k);
            lemma_index_of_id(post, k);
            assert(pre[
                if m2 < j {
                    m2
                } else {
                    m2 + 1
                }
            ].id == k);
            assert(contains_id(pre, k));
        }
    }
}

/// The id of the namespace's active credential, if any.
pub fn get_active_id(store: &CredentialStore) -> (r: Option<u128>)
    requires
        store.wf(),
    ensures
        match r {
            Some(id) => spec_active(store@) matches Some(c) && c.id == id,
            None => spec_active(store@) is None,
        },
{
    match store.get_active() {
        Some(c) => Some(c.id),
        None => None,
    }
}

} // verus!
