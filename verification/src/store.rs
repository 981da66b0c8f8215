//! Key-value persistence for credential records, with the transactional
//! semantics that preserve the single-active invariant: an upsert of an
//! active record clears every other active flag in the same step.

use vstd::prelude::*;
use crate::credential::{Credential, CredentialV};

verus! {

/// Whether some record in `s` has identifier `id`.
pub open spec fn contains_id(s: Seq<CredentialV>, id: u128) -> bool {
    exists|i: int| 0 <= i < s.len() && s[i].id == id
}

/// The index of the record with identifier `id` (meaningful when
/// `contains_id(s, id)` and the identifiers are unique).
pub open spec fn index_of_id(s: Seq<CredentialV>, id: u128) -> int {
    choose|i: int| 0 <= i < s.len() && s[i].id == id
}

/// The record with identifier `id`.
pub open spec fn lookup(s: Seq<CredentialV>, id: u128) -> CredentialV {
    s[index_of_id(s, id)]
}

/// Identifiers are pairwise distinct: `id` is a primary key.
pub open spec fn unique_ids(s: Seq<CredentialV>) -> bool {
    forall|i: int, j: int|
        0 <= i < s.len() && 0 <= j < s.len() && i != j ==> s[i].id != s[j].id
}

/// At most one record carries the active flag.
pub open spec fn at_most_one_active(s: Seq<CredentialV>) -> bool {
    forall|i: int, j: int|
        0 <= i < s.len() && 0 <= j < s.len() && s[i].active && s[j].active ==> i == j
}

/// Well-formedness of a namespace's stored contents.
pub open spec fn store_wf(s: Seq<CredentialV>) -> bool {
    unique_ids(s) && at_most_one_active(s)
}

/// Every record with its active flag cleared.
pub open spec fn deactivate_all(s: Seq<CredentialV>) -> Seq<CredentialV> {
    s.map_values(|c: CredentialV| c.deactivated())
}

/// What an upsert of `c` leaves behind: if `c` is active, every other
/// record is deactivated in the same step; `c` replaces the record with
/// its id, or is appended if the id is new.
pub open spec fn spec_upsert(s: Seq<CredentialV>, c: CredentialV) -> Seq<CredentialV> {
    let base = if c.active { deactivate_all(s) } else { s };
    if contains_id(s, c.id) {
        base.update(index_of_id(s, c.id), c)
    } else {
        base.push(c)
    }
}

/// The single active record, if any.
pub open spec fn spec_active(s: Seq<CredentialV>) -> Option<CredentialV> {
    if exists|i: int| 0 <= i < s.len() && s[i].active {
        Some(s[choose|i: int| 0 <= i < s.len() && s[i].active])
    } else {
        None
    }
}

/// Law: within a namespace, at most one stored credential is active at
/// any observation point.
pub proof fn lemma_single_active(s: Seq<CredentialV>, i: int, j: int)
    requires
        store_wf(s),
        0 <= i < s.len(),
        0 <= j < s.len(),
        s[i].active,
        s[j].active,
    ensures
        i == j,
{
}

/// Law: a namespace with no records has no active credential.
pub proof fn lemma_empty_no_active(s: Seq<CredentialV>)
    requires
        s.len() == 0,
    ensures
        spec_active(s) is None,
{
}

/// The index found for a present id lies in bounds and carries that id.
pub proof fn lemma_index_of_id(s: Seq<CredentialV>, id: u128)
    requires
        contains_id(s, id),
    ensures
        0 <= index_of_id(s, id) < s.len(),
        s[index_of_id(s, id)].id == id,
{
}

/// With unique identifiers, any position carrying `id` is the one found.
pub proof fn lemma_index_of_id_unique(s: Seq<CredentialV>, id: u128, k: int)
    requires
        unique_ids(s),
        0 <= k < s.len(),
        s[k].id == id,
    ensures
        index_of_id(s, id) == k,
{
    assert(contains_id(s, id));
    lemma_index_of_id(s, id);
}

/// An upsert of `c` leaves every other account in place, its content
/// unchanged but for possibly the active flag.
pub proof fn lemma_upsert_preserves_others(pre: Seq<CredentialV>, c: CredentialV, k: u128)
    requires
        store_wf(pre),
        store_wf(spec_upsert(pre, c)),
        k != c.id,
    ensures
        contains_id(spec_upsert(pre, c), k) <==> contains_id(pre, k),
        contains_id(pre, k) ==> lookup(spec_upsert(pre, c), k).same_account(lookup(pre, k)),
{
    let post = spec_upsert(pre, c);
    if contains_id(pre, k) {
        let m = index_of_id(pre, k);
        lemma_index_of_id(pre, k);
        if contains_id(pre, c.id) {
            let j = index_of_id(pre, c.id);
            lemma_index_of_id(pre, c.id);
            assert(m != j);
        }
        assert(post[m].id == k && post[m].same_account(pre[m]));
        assert(contains_id(post, k));
        lemma_index_of_id_unique(post, k, m);
    }
    if contains_id(post, k) {
        let m = index_of_id(post, k);
        lemma_index_of_id(post, k);
        if contains_id(pre, c.id) {
            assert(pre[m].id == post[m].id);
        } else {
            if m < pre.len() {
                assert(pre[m].id == post[m].id);
            } else {
                assert(post[m] == c);
            }
        }
        assert(contains_id(pre, k));
    }
}

/// Credential store for one namespace. Holds each record under its id and
/// maintains the single-active invariant across upserts.
pub struct CredentialStore {
    records: Vec<Credential>,
}

impl View for CredentialStore {
    type V = Seq<CredentialV>;

    closed spec fn view(&self) -> Seq<CredentialV> {
        self.records@.map_values(|c: Credential| c@)
    }
}

impl CredentialStore {
    /// Store contents are well-formed.
    pub open spec fn wf(&self) -> bool {
        store_wf(self@)
    }

    /// A fresh, empty namespace.
    pub fn new() -> (r: Self)
        ensures
            r@ == Seq::<CredentialV>::empty(),
            r.wf(),
    {
        let r = CredentialStore { records: Vec::new() };
        proof {
            assert(r@ =~= Seq::<CredentialV>::empty());
        }
        r
    }

    /// Number of stored records.
    pub fn len(&self) -> (n: usize)
        ensures
            n == self@.len(),
    {
        self.records.len()
    }

    /// Snapshot of the record with identifier `id`, if present.
    #[verifier::loop_isolation(false)]
    pub fn get(&self, id: u128) -> (r: Option<Credential>)
        requires
            self.wf(),
        ensures
            match r {
                Some(c) => contains_id(self@, id) && c@ == lookup(self@, id),
                None => !contains_id(self@, id),
            },
    {
        let mut i: usize = 0;
        while i < self.records.len()
            invariant
                0 <= i <= self.records.len(),
                self.wf(),
                forall|k: int| 0 <= k < i ==> self@[k].id != id,
            decreases self.records.len() - i,
        {
            if self.records[i].id == id {
                let c = self.records[i].clone();
                proof {
                    lemma_index_of_id_unique(self@, id, i as int);
                }
                return Some(c);
            }
            i += 1;
        }
        None
    }

    /// Snapshot of the single active record, or none.
    #[verifier::loop_isolation(false)]
    pub fn get_active(&self) -> (r: Option<Credential>)
        requires
            self.wf(),
        ensures
            match r {
                Some(c) => spec_active(self@) == Some(c@),
                None => spec_active(self@) is None,
            },
    {
        let mut i: usize = 0;
        while i < self.records.len()
            invariant
                0 <= i <= self.records.len(),
                self.wf(),
                forall|k: int| 0 <= k < i ==> !self@[k].active,
            decreases self.records.len() - i,
        {
            if self.records[i].active {
                let c = self.records[i].clone();
                proof {
                    let j = choose|k: int| 0 <= k < self@.len() && self@[k].active;
                    assert(self@[i as int].active);
                    assert(j == i as int);
                }
                return Some(c);
            }
            i += 1;
        }
        None
    }

    /// Snapshot of every stored record, in storage order.
    #[verifier::loop_isolation(false)]
    pub fn get_all(&self) -> (r: Vec<Credential>)
        ensures
            r@.len() == self@.len(),
            forall|i: int| 0 <= i < r@.len() ==> r@[i]@ == self@[i],
    {
        let mut out: Vec<Credential> = Vec::new();
        let mut i: usize = 0;
        while i < self.records.len()
            invariant
                0 <= i <= self.records.len(),
                out@.len() == i,
                forall|k: int| 0 <= k < i ==> out@[k]@ == self@[k],
            decreases self.records.len() - i,
        {
            out.push(self.records[i].clone());
            i += 1;
        }
        out
    }

    /// Insert or replace the record keyed by `c.id`. When `c` is active,
    /// every other record's active flag is cleared in the same step, which
    /// is what keeps the single-active invariant.
    #[verifier::loop_isolation(false)]
    pub fn upsert(&mut self, c: Credential)
        requires
            old(self).wf(),
        ensures
            final(self)@ == spec_upsert(old(self)@, c@),
            final(self).wf(),
            contains_id(final(self)@, c@.id),
            lookup(final(self)@, c@.id) == c@,
            c@.active ==> spec_active(final(self)@) == Some(c@),
    {
        let ghost pre = self@;
        let mut out: Vec<Credential> = Vec::new();
        let mut replaced = false;
        let mut i: usize = 0;
        while i < self.records.len()
            invariant
                0 <= i <= self.records.len(),
                out@.len() == i,
                replaced <==> exists|k: int| 0 <= k < i && pre[k].id == c@.id,
                forall|k: int| 0 <= k < i ==> out@[k]@ == (
                    if pre[k].id == c@.id {
                        c@
                    } else if c@.active {
                        pre[k].deactivated()
                    } else {
                        pre[k]
                    }
                ),
            decreases self.records.len() - i,
        {
            let mut r = self.records[i].clone();
            if r.id == c.id {
                proof {
                    assert(pre[i as int].id == c@.id);
                }
                out.push(c.clone());
                replaced = true;
            } else {
                proof {
                    assert(pre[i as int].id != c@.id);
                }
                if c.active {
                    r.active = false;
                }
                out.push(r);
            }
            i += 1;
        }
        if !replaced {
            out.push(c);
        }
        self.records = out;
        proof {
            let post = self@;
            let cv = c@;
            if contains_id(pre, cv.id) {
                let j = index_of_id(pre, cv.id);
                lemma_index_of_id(pre, cv.id);
                assert(post =~= spec_upsert(pre, cv)) by {
                    assert forall|k: int| 0 <= k < post.len() implies post[k]
                        == spec_upsert(pre, cv)[k] by {
                        if k == j {
                        } else {
                            assert(pre[k].id != cv.id);
                        }
                    }
                }
                lemma_index_of_id_unique(post, cv.id, j);
            } else {
                assert(post =~= spec_upsert(pre, cv));
                lemma_index_of_id_unique(post, cv.id, pre.len() as int);
            }
            let post_j = index_of_id(post, cv.id);
            assert(lookup(post, cv.id) == cv);
            assert(unique_ids(post)) by {
                assert forall|a: int, b: int|
                    0 <= a < post.len() && 0 <= b < post.len() && a != b
                    implies post[a].id != post[b].id by {
                    if contains_id(pre, cv.id) {
                        assert(post[a].id == pre[a].id);
                        assert(post[b].id == pre[b].id);
                    } else {
                        if a < pre.len() && b < pre.len() {
                            assert(post[a].id == pre[a].id);
                            assert(post[b].id == pre[b].id);
                        } else if a < pre.len() {
                            assert(post[b] == cv && pre[a].id != cv.id);
                        } else {
                            assert(post[a] == cv && pre[b].id != cv.id);
                        }
                    }
                }
            }
            assert(at_most_one_active(post)) by {
                assert forall|a: int, b: int|
                    0 <= a < post.len() && 0 <= b < post.len()
                    && post[a].active && post[b].active implies a == b by {
                    if cv.active {
                        assert(a == post_j && b == post_j);
                    }
                }
            }
            if cv.active {
                let w = choose|k: int| 0 <= k < post.len() && post[k].active;
                assert(post[post_j].active);
                assert(w == post_j);
            }
        }
    }

    /// Delete the record keyed by `id`, if present. Does not itself restore
    /// an active record; promotion is the account manager's concern.
    #[verifier::loop_isolation(false)]
    pub fn remove(&mut self, id: u128)
        requires
            old(self).wf(),
        ensures
            final(self).wf(),
            contains_id(old(self)@, id) ==> final(self)@
                == old(self)@.remove(index_of_id(old(self)@, id)),
            !contains_id(old(self)@, id) ==> final(self)@ == old(self)@,
            !contains_id(final(self)@, id),
    {
        let ghost pre = self@;
        let mut i: usize = 0;
        while i < self.records.len()
            invariant
                0 <= i <= self.records.len(),
                self@ == pre,
                forall|k: int| 0 <= k < i ==> self@[k].id != id,
            decreases self.records.len() - i,
        {
            if self.records[i].id == id {
                self.records.remove(i);
                proof {
                    assert(pre[i as int].id == id);
                    assert(contains_id(pre, id));
                    lemma_index_of_id_unique(pre, id, i as int);
                    let post = self@;
                    assert(post =~= pre.remove(i as int));
                    assert(store_wf(post)) by {
                        assert forall|a: int, b: int|
                            0 <= a < post.len() && 0 <= b < post.len() && a != b
                            implies post[a].id != post[b].id by {
                            assert(post[a] == pre[if a < i { a } else { a + 1 }]);
                            assert(post[b] == pre[if b < i { b } else { b + 1 }]);
                        }
                        assert forall|a: int, b: int|
                            0 <= a < post.len() && 0 <= b < post.len()
                            && post[a].active && post[b].active implies a == b by {
                            assert(post[a] == pre[if a < i { a } else { a + 1 }]);
                            assert(post[b] == pre[if b < i { b } else { b + 1 }]);
                        }
                    }
                    assert(!contains_id(post, id)) by {
                        assert forall|k: int| 0 <= k < post.len()
                            implies post[k].id != id by {
                            assert(post[k] == pre[if k < i { k } else { k + 1 }]);
                        }
                    }
                }
                return;
            }
            i += 1;
        }
    }
}

} // verus!
