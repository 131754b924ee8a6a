//! The consent registry: bootstrap, issuer allowlist, record store,
//! ownership index, and the record state machine.
//!
//! The registry is an explicit value; the surrounding environment is expected
//! to authenticate the acting identity before each call and to supply the
//! current time where an operation stamps the audit trail. Identities are
//! plain `u64` values. Operations either complete with their whole effect or
//! fail with a [`ContractError`] and leave the registry untouched.

use std::collections::HashMap;
use vstd::prelude::*;

use crate::errors::ContractError;
use crate::records::{
    lemma_count_action_nonneg, lemma_count_action_push, ConsentAction, ConsentHistoryEntry,
    ConsentMetadata, ConsentRecord,
};
use crate::seq_ops::{
    distinct, lemma_push_membership, lemma_remove_all_distinct, lemma_remove_all_index,
    lemma_remove_all_membership, lemma_remove_all_push, remove_all,
};

verus! {

/// Well-formedness only mentions the record store and the ownership index,
/// so a state that keeps both of another well-formed state is well-formed.
proof fn lemma_wf_same_store(a: PatientConsentToken, b: PatientConsentToken)
    requires
        a.wf(),
        b.records@ == a.records@,
        b.owner_index@ == a.owner_index@,
    ensures
        b.wf(),
{
    assert forall|id: u64| #[trigger] b.has_record(id) implies b.spec_record(id).wf() by {
        assert(a.has_record(id));
    }
    assert forall|o: u64, i: int| 0 <= i < b.spec_tokens(o).len() implies b.has_record(
        #[trigger] b.spec_tokens(o)[i],
    ) && b.spec_record(b.spec_tokens(o)[i]).owner == o by {
        assert(b.spec_tokens(o) == a.spec_tokens(o));
        assert(a.has_record(a.spec_tokens(o)[i]) && a.spec_record(a.spec_tokens(o)[i]).owner == o);
    }
    assert forall|id: u64| #[trigger] b.has_record(id) implies b.spec_tokens(
        b.spec_record(id).owner,
    ).contains(id) by {
        assert(a.has_record(id));
        assert(a.spec_tokens(a.spec_record(id).owner).contains(id));
        assert(b.spec_tokens(b.spec_record(id).owner) == a.spec_tokens(a.spec_record(id).owner));
    }
    assert forall|o: u64| distinct(#[trigger] b.spec_tokens(o)) by {
        assert(b.spec_tokens(o) == a.spec_tokens(o));
        assert(distinct(a.spec_tokens(o)));
    }
}

/// The ownership-index invariant survives any change to the record store
/// that keeps the number of records and every record's owner.
proof fn lemma_tokens_wf_same_owners(a: PatientConsentToken, b: PatientConsentToken)
    requires
        a.wf(),
        b.owner_index@ == a.owner_index@,
        b.records@.len() == a.records@.len(),
        forall|id: u64|
            a.has_record(id) ==> #[trigger] b.spec_record(id).owner == a.spec_record(id).owner,
    ensures
        b.tokens_wf(),
{
    assert forall|o: u64, i: int| 0 <= i < b.spec_tokens(o).len() implies b.has_record(
        #[trigger] b.spec_tokens(o)[i],
    ) && b.spec_record(b.spec_tokens(o)[i]).owner == o by {
        assert(b.spec_tokens(o) == a.spec_tokens(o));
        assert(a.has_record(a.spec_tokens(o)[i]) && a.spec_record(a.spec_tokens(o)[i]).owner == o);
    }
    assert forall|id: u64| #[trigger] b.has_record(id) implies b.spec_tokens(
        b.spec_record(id).owner,
    ).contains(id) by {
        assert(a.has_record(id));
        assert(a.spec_tokens(a.spec_record(id).owner).contains(id));
        assert(b.spec_tokens(b.spec_record(id).owner) == a.spec_tokens(a.spec_record(id).owner));
    }
    assert forall|o: u64| distinct(#[trigger] b.spec_tokens(o)) by {
        assert(b.spec_tokens(o) == a.spec_tokens(o));
        assert(distinct(a.spec_tokens(o)));
    }
}

/// The whole state of one consent registry.
///
/// Record ids are issued densely in order: the record with id `i` sits at
/// index `i` of `records`, so the id counter is `records.len()`.
pub struct PatientConsentToken {
    /// The single privileged identity, set once by `initialize`.
    pub admin: Option<u64>,
    /// The issuer allowlist; admin-controlled, duplicates tolerated.
    pub issuers: Vec<u64>,
    /// Every record ever issued, in issuance order, never removed.
    pub records: Vec<ConsentRecord>,
    /// For each identity that ever held a record, the ids it currently holds.
    pub owner_index: HashMap<u64, Vec<u64>>,
}

impl PatientConsentToken {
    /// How many records have been issued; also the next id to issue.
    pub open spec fn record_count(self) -> int {
        self.records@.len() as int
    }

    /// Whether a record with this id has been issued.
    pub open spec fn has_record(self, token_id: u64) -> bool {
        (token_id as int) < self.records@.len()
    }

    /// The record stored under `token_id`.
    pub open spec fn spec_record(self, token_id: u64) -> ConsentRecord {
        self.records@[token_id as int]
    }

    /// Whether `who` is on the issuer allowlist.
    pub open spec fn spec_is_issuer(self, who: u64) -> bool {
        self.issuers@.contains(who)
    }

    /// The ids the ownership index lists for `who`; empty if never seen.
    pub open spec fn spec_tokens(self, who: u64) -> Seq<u64> {
        if self.owner_index@.contains_key(who) {
            self.owner_index@[who]@
        } else {
            Seq::empty()
        }
    }

    /// The ownership index is exact: it lists precisely the ids whose stored
    /// owner is that identity, each at most once.
    pub open spec fn tokens_wf(self) -> bool {
        &&& forall|o: u64, i: int|
            0 <= i < self.spec_tokens(o).len() ==> self.has_record(
                #[trigger] self.spec_tokens(o)[i],
            ) && self.spec_record(self.spec_tokens(o)[i]).owner == o
        &&& forall|id: u64|
            #[trigger] self.has_record(id) ==> self.spec_tokens(
                self.spec_record(id).owner,
            ).contains(id)
        &&& forall|o: u64| distinct(#[trigger] self.spec_tokens(o))
    }

    /// Registry well-formedness: every stored record is internally consistent
    /// and the ownership index is exact.
    pub open spec fn wf(self) -> bool {
        &&& forall|id: u64| #[trigger] self.has_record(id) ==> self.spec_record(id).wf()
        &&& self.tokens_wf()
    }

    /// Which outcome a mint for `to` gets from this state: the id it will
    /// receive, or `NotAuthorized` when `to` is not an allowlisted issuer.
    pub open spec fn spec_mint_result(self, to: u64) -> Result<u64, ContractError> {
        if self.spec_is_issuer(to) {
            Ok(self.record_count() as u64)
        } else {
            Err(ContractError::NotAuthorized)
        }
    }

    /// Which outcome an update of `token_id` by `caller` gets from this state.
    pub open spec fn spec_update_result(self, caller: u64, token_id: u64) -> Result<
        (),
        ContractError,
    > {
        if !self.has_record(token_id) {
            Err(ContractError::TokenNotFound)
        } else if self.spec_record(token_id).revoked {
            Err(ContractError::ConsentRevoked)
        } else if self.spec_record(token_id).owner != caller {
            Err(ContractError::NotAuthorized)
        } else {
            Ok(())
        }
    }

    /// Which outcome a revocation of `token_id` by `caller` gets from this
    /// state. Revoking an already revoked record is not refused; it appends
    /// one more terminal entry.
    pub open spec fn spec_revoke_result(self, caller: u64, token_id: u64) -> Result<
        (),
        ContractError,
    > {
        if !self.has_record(token_id) {
            Err(ContractError::TokenNotFound)
        } else if self.spec_record(token_id).owner != caller {
            Err(ContractError::NotAuthorized)
        } else {
            Ok(())
        }
    }

    /// Which outcome a transfer gets from this state. Ownership is checked
    /// before revocation, so a non-owner is told `NotTokenOwner` even on a
    /// revoked record.
    pub open spec fn spec_transfer_result(self, from: u64, to: u64, token_id: u64) -> Result<
        (),
        ContractError,
    > {
        if !self.has_record(token_id) {
            Err(ContractError::TokenNotFound)
        } else if self.spec_record(token_id).owner != from {
            Err(ContractError::NotTokenOwner)
        } else if self.spec_record(token_id).revoked {
            Err(ContractError::ConsentRevoked)
        } else {
            Ok(())
        }
    }

    /// What `is_valid` answers from this state at time `now`: unknown ids
    /// fail, revoked records are invalid, expiry 0 never expires, and
    /// otherwise the record is valid strictly before its expiry time.
    pub open spec fn spec_validity(self, token_id: u64, now: u64) -> Result<bool, ContractError> {
        if !self.has_record(token_id) {
            Err(ContractError::TokenNotFound)
        } else if self.spec_record(token_id).revoked {
            Ok(false)
        } else if self.spec_record(token_id).metadata.expiry_timestamp == 0 {
            Ok(true)
        } else {
            Ok(now < self.spec_record(token_id).metadata.expiry_timestamp)
        }
    }

    /// An empty registry: no admin, no issuers, no records.
    pub fn new() -> (r: Self)
        ensures
            r.wf(),
            r.admin.is_none(),
            r.issuers@ == Seq::<u64>::empty(),
            r.record_count() == 0,
            forall|o: u64| #[trigger] r.spec_tokens(o) == Seq::<u64>::empty(),
    {
        let r = PatientConsentToken {
            admin: None,
            issuers: Vec::new(),
            records: Vec::new(),
            owner_index: HashMap::new(),
        };
        proof {
            assert(forall|o: u64| !r.owner_index@.contains_key(o));
        }
        r
    }

    /// Set the admin; runs at most once. A second call fails
    /// `AlreadyInitialized` and changes nothing. The issuer allowlist starts
    /// empty and the id counter at zero (no record can exist yet in any state
    /// reachable from `new`).
    pub fn initialize(&mut self, admin: u64) -> (result: Result<(), ContractError>)
        requires
            old(self).wf(),
        ensures
            final(self).wf(),
            old(self).admin.is_some() ==> result == Err::<(), ContractError>(
                ContractError::AlreadyInitialized,
            ) && *final(self) == *old(self),
            old(self).admin.is_none() ==> {
                &&& result == Ok::<(), ContractError>(())
                &&& final(self).admin == Some(admin)
                &&& final(self).issuers@ == Seq::<u64>::empty()
                &&& final(self).records@ == old(self).records@
                &&& final(self).owner_index@ == old(self).owner_index@
            },
    {
        if self.admin.is_some() {
            return Err(ContractError::AlreadyInitialized);
        }
        self.admin = Some(admin);
        self.issuers = Vec::new();
        proof {
            lemma_wf_same_store(*old(self), *self);
        }
        Ok(())
    }

    /// Append `issuer` to the allowlist. Only the admin may do this; any
    /// other caller (including any caller while uninitialized) fails
    /// `NotAuthorized` with no change.
    pub fn add_issuer(&mut self, caller: u64, issuer: u64) -> (result: Result<(), ContractError>)
        requires
            old(self).wf(),
        ensures
            final(self).wf(),
            old(self).admin != Some(caller) ==> result == Err::<(), ContractError>(
                ContractError::NotAuthorized,
            ) && *final(self) == *old(self),
            old(self).admin == Some(caller) ==> {
                &&& result == Ok::<(), ContractError>(())
                &&& final(self).issuers@ == old(self).issuers@.push(issuer)
                &&& final(self).spec_is_issuer(issuer)
                &&& final(self).admin == old(self).admin
                &&& final(self).records@ == old(self).records@
                &&& final(self).owner_index@ == old(self).owner_index@
            },
    {
        let authorized = match self.admin {
            Some(a) => a == caller,
            None => false,
        };
        if !authorized {
            return Err(ContractError::NotAuthorized);
        }
        self.issuers.push(issuer);
        proof {
            lemma_push_membership(old(self).issuers@, issuer, issuer);
            lemma_wf_same_store(*old(self), *self);
        }
        Ok(())
    }

    /// Remove every occurrence of `issuer` from the allowlist. Only the admin
    /// may do this. Removing a non-member is a no-op that still succeeds.
    pub fn remove_issuer(&mut self, caller: u64, issuer: u64) -> (result: Result<
        (),
        ContractError,
    >)
        requires
            old(self).wf(),
        ensures
            final(self).wf(),
            old(self).admin != Some(caller) ==> result == Err::<(), ContractError>(
                ContractError::NotAuthorized,
            ) && *final(self) == *old(self),
            old(self).admin == Some(caller) ==> {
                &&& result == Ok::<(), ContractError>(())
                &&& final(self).issuers@ == remove_all(old(self).issuers@, issuer)
                &&& !final(self).spec_is_issuer(issuer)
                &&& forall|who: u64|
                    who != issuer ==> (#[trigger] final(self).spec_is_issuer(who)
                        <==> old(self).spec_is_issuer(who))
                &&& final(self).admin == old(self).admin
                &&& final(self).records@ == old(self).records@
                &&& final(self).owner_index@ == old(self).owner_index@
            },
    {
        let authorized = match self.admin {
            Some(a) => a == caller,
            None => false,
        };
        if !authorized {
            return Err(ContractError::NotAuthorized);
        }
        let mut kept: Vec<u64> = Vec::new();
        let n: usize = self.issuers.len();
        let mut i: usize = 0;
        #[verifier::loop_isolation(false)]
        while i < n
            invariant
                i <= n,
                kept@ == remove_all(self.issuers@.take(i as int), issuer),
            decreases n - i,
        {
            let v = self.issuers[i];
            proof {
                assert(self.issuers@.take(i as int + 1) =~= self.issuers@.take(i as int).push(
                    self.issuers@[i as int],
                ));
                lemma_remove_all_push(self.issuers@.take(i as int), issuer, self.issuers@[i as int]);
            }
            if v != issuer {
                kept.push(v);
            }
            i = i + 1;
        }
        proof {
            assert(self.issuers@.take(n as int) =~= self.issuers@);
        }
        self.issuers = kept;
        proof {
            lemma_remove_all_membership(old(self).issuers@, issuer, issuer);
            assert forall|who: u64|
                who != issuer implies (#[trigger] self.spec_is_issuer(who) <==> old(
                self,
            ).spec_is_issuer(who)) by {
                lemma_remove_all_membership(old(self).issuers@, issuer, who);
            }
            lemma_wf_same_store(*old(self), *self);
        }
        Ok(())
    }

    /// Issue a new consent record to `to`, which must itself be an
    /// allowlisted issuer (an issuer mints to itself; the environment has
    /// authenticated `to`). The new record takes the next sequential id,
    /// version 1, an audit trail with exactly one "issued" entry stamped
    /// `now`, and is appended to `to`'s ownership list.
    pub fn mint_consent(
        &mut self,
        to: u64,
        metadata_uri: String,
        consent_type: String,
        expiry_timestamp: u64,
        now: u64,
    ) -> (result: Result<u64, ContractError>)
        requires
            old(self).wf(),
        ensures
            final(self).wf(),
            result == old(self).spec_mint_result(to),
            !old(self).spec_is_issuer(to) ==> *final(self) == *old(self),
            old(self).spec_is_issuer(to) ==> {
                &&& final(self).record_count() == old(self).record_count() + 1
                &&& forall|id: u64|
                    old(self).has_record(id) ==> #[trigger] final(self).spec_record(id) == old(
                        self,
                    ).spec_record(id)
                &&& {
                    let r = final(self).spec_record((old(self).record_count() as u64));
                    &&& r.owner == to
                    &&& r.revoked == false
                    &&& r.metadata.metadata_uri == metadata_uri
                    &&& r.metadata.consent_type == consent_type
                    &&& r.metadata.issued_timestamp == now
                    &&& r.metadata.expiry_timestamp == expiry_timestamp
                    &&& r.metadata.issuer == to
                    &&& r.metadata.version == 1
                    &&& r.history@.len() == 1
                    &&& r.history@[0].action == ConsentAction::Issued
                    &&& r.history@[0].timestamp == now
                    &&& r.history@[0].actor == to
                    &&& r.history@[0].metadata_uri == metadata_uri
                }
                &&& final(self).spec_tokens(to) == old(self).spec_tokens(to).push(
                    (old(self).record_count() as u64),
                )
                &&& forall|o: u64|
                    o != to ==> #[trigger] final(self).spec_tokens(o) == old(self).spec_tokens(o)
                &&& final(self).admin == old(self).admin
                &&& final(self).issuers@ == old(self).issuers@
            },
    {
        if !self.is_issuer(to) {
            return Err(ContractError::NotAuthorized);
        }
        let token_id: u64 = self.records.len() as u64;
        let entry = ConsentHistoryEntry {
            action: ConsentAction::Issued,
            timestamp: now,
            actor: to,
            metadata_uri: metadata_uri.clone(),
        };
        let ghost gentry = entry;
        let mut history: Vec<ConsentHistoryEntry> = Vec::new();
        history.push(entry);
        let metadata = ConsentMetadata {
            metadata_uri,
            consent_type,
            issued_timestamp: now,
            expiry_timestamp,
            issuer: to,
            version: 1,
        };
        let record = ConsentRecord { owner: to, metadata, revoked: false, history };
        let ghost grec = record;
        self.records.push(record);
        let mut ids: Vec<u64> = match self.owner_index.remove(&to) {
            Some(v) => v,
            None => Vec::new(),
        };
        ids.push(token_id);
        self.owner_index.insert(to, ids);
        proof {
            let o_st = *old(self);
            let f = *self;
            let id_new = token_id;
            assert(f.records@ == o_st.records@.push(grec));
            assert(grec.history@ == Seq::<ConsentHistoryEntry>::empty().push(gentry));
            lemma_count_action_push(
                Seq::<ConsentHistoryEntry>::empty(),
                gentry,
                ConsentAction::Updated,
            );
            lemma_count_action_push(
                Seq::<ConsentHistoryEntry>::empty(),
                gentry,
                ConsentAction::Revoked,
            );
            assert(grec.wf());
            assert(f.spec_record(id_new) == grec);
            assert(f.spec_tokens(to) == o_st.spec_tokens(to).push(id_new));
            assert forall|id: u64| #[trigger] f.has_record(id) implies f.spec_record(id).wf() by {
                if (id as int) < o_st.records@.len() {
                    assert(o_st.has_record(id));
                    assert(f.spec_record(id) == o_st.spec_record(id));
                }
            }
            assert forall|o: u64, i: int| 0 <= i < f.spec_tokens(o).len() implies f.has_record(
                #[trigger] f.spec_tokens(o)[i],
            ) && f.spec_record(f.spec_tokens(o)[i]).owner == o by {
                if o == to {
                    if i < o_st.spec_tokens(to).len() {
                        assert(f.spec_tokens(to)[i] == o_st.spec_tokens(to)[i]);
                        assert(o_st.has_record(o_st.spec_tokens(to)[i]) && o_st.spec_record(
                            o_st.spec_tokens(to)[i],
                        ).owner == to);
                    } else {
                        assert(f.spec_tokens(to)[i] == id_new);
                    }
                } else {
                    assert(f.spec_tokens(o) == o_st.spec_tokens(o));
                    assert(o_st.has_record(o_st.spec_tokens(o)[i]) && o_st.spec_record(
                        o_st.spec_tokens(o)[i],
                    ).owner == o);
                }
            }
            assert forall|id: u64| #[trigger] f.has_record(id) implies f.spec_tokens(
                f.spec_record(id).owner,
            ).contains(id) by {
                if (id as int) < o_st.records@.len() {
                    assert(o_st.has_record(id));
                    let w = o_st.spec_record(id).owner;
                    assert(o_st.spec_tokens(w).contains(id));
                    assert(f.spec_record(id).owner == w);
                    if w == to {
                        lemma_push_membership(o_st.spec_tokens(to), id_new, id);
                    } else {
                        assert(f.spec_tokens(w) == o_st.spec_tokens(w));
                    }
                } else {
                    assert(id == id_new);
                    lemma_push_membership(o_st.spec_tokens(to), id_new, id);
                }
            }
            assert forall|o: u64| distinct(#[trigger] f.spec_tokens(o)) by {
                if o == to {
                    let s = o_st.spec_tokens(to);
                    assert(distinct(s));
                    assert forall|i: int, j: int|
                        0 <= i < j < f.spec_tokens(to).len() implies f.spec_tokens(to)[i]
                        != f.spec_tokens(to)[j] by {
                        if j < s.len() {
                            assert(f.spec_tokens(to)[i] == s[i] && f.spec_tokens(to)[j] == s[j]);
                        } else {
                            assert(f.spec_tokens(to)[j] == id_new);
                            assert(f.spec_tokens(to)[i] == s[i]);
                            assert(o_st.has_record(s[i]));
                        }
                    }
                } else {
                    assert(f.spec_tokens(o) == o_st.spec_tokens(o));
                    assert(distinct(o_st.spec_tokens(o)));
                }
            }
        }
        Ok(token_id)
    }

    /// Replace the metadata pointer of `token_id` and raise its version by 1,
    /// appending an "updated" audit entry stamped `now`. Only the current
    /// owner may do this (the environment has authenticated `caller`), and a
    /// revoked record refuses before ownership is even considered. The bound
    /// on `version` is a machine limit: the version counter must not wrap.
    pub fn update_consent(
        &mut self,
        caller: u64,
        token_id: u64,
        new_metadata_uri: String,
        now: u64,
    ) -> (result: Result<(), ContractError>)
        requires
            old(self).wf(),
            old(self).has_record(token_id) ==> old(self).spec_record(
                token_id,
            ).metadata.version < u32::MAX,
        ensures
            final(self).wf(),
            result == old(self).spec_update_result(caller, token_id),
            result is Err ==> *final(self) == *old(self),
            result is Ok ==> {
                &&& final(self).record_count() == old(self).record_count()
                &&& forall|id: u64|
                    id != token_id && old(self).has_record(id)
                        ==> #[trigger] final(self).spec_record(id) == old(self).spec_record(id)
                &&& {
                    let r = final(self).spec_record(token_id);
                    let r0 = old(self).spec_record(token_id);
                    &&& r.owner == r0.owner
                    &&& r.revoked == r0.revoked
                    &&& r.metadata.metadata_uri == new_metadata_uri
                    &&& r.metadata.consent_type == r0.metadata.consent_type
                    &&& r.metadata.issued_timestamp == r0.metadata.issued_timestamp
                    &&& r.metadata.expiry_timestamp == r0.metadata.expiry_timestamp
                    &&& r.metadata.issuer == r0.metadata.issuer
                    &&& r.metadata.version == r0.metadata.version + 1
                    &&& r.history@.len() == r0.history@.len() + 1
                    &&& forall|i: int|
                        0 <= i < r0.history@.len() ==> #[trigger] r.history@[i] == r0.history@[i]
                    &&& r.history@.last().action == ConsentAction::Updated
                    &&& r.history@.last().timestamp == now
                    &&& r.history@.last().actor == r0.owner
                    &&& r.history@.last().metadata_uri == new_metadata_uri
                }
                &&& forall|o: u64|
                    #[trigger] final(self).spec_tokens(o) == old(self).spec_tokens(o)
                &&& final(self).admin == old(self).admin
                &&& final(self).issuers@ == old(self).issuers@
            },
    {
        if !(token_id < self.records.len() as u64) {
            return Err(ContractError::TokenNotFound);
        }
        let idx: usize = token_id as usize;
        if self.records[idx].revoked {
            return Err(ContractError::ConsentRevoked);
        }
        if self.records[idx].owner != caller {
            return Err(ContractError::NotAuthorized);
        }
        let mut rec = self.records.remove(idx);
        let ghost r0 = rec;
        rec.metadata.metadata_uri = new_metadata_uri.clone();
        rec.metadata.version = rec.metadata.version + 1;
        let entry = ConsentHistoryEntry {
            action: ConsentAction::Updated,
            timestamp: now,
            actor: rec.owner,
            metadata_uri: new_metadata_uri,
        };
        let ghost gentry = entry;
        rec.history.push(entry);
        let ghost rec1 = rec;
        self.records.insert(idx, rec);
        proof {
            let o_st = *old(self);
            let f = *self;
            assert(f.records@ =~= o_st.records@.update(idx as int, rec1));
            assert(o_st.has_record(token_id));
            assert(r0.wf());
            assert(rec1.history@ == r0.history@.push(gentry));
            lemma_count_action_push(r0.history@, gentry, ConsentAction::Updated);
            lemma_count_action_push(r0.history@, gentry, ConsentAction::Revoked);
            assert(rec1.wf()) by {
                assert forall|i: int|
                    1 <= i < rec1.history@.len() implies (#[trigger] rec1.history@[i]).action
                    != ConsentAction::Issued by {
                    if i < r0.history@.len() {
                        assert(rec1.history@[i] == r0.history@[i]);
                    }
                }
            }
            assert forall|id: u64| #[trigger] f.has_record(id) implies f.spec_record(id).wf() by {
                assert(o_st.has_record(id));
                if id != token_id {
                    assert(f.spec_record(id) == o_st.spec_record(id));
                }
            }
            lemma_tokens_wf_same_owners(o_st, f);
            assert forall|o: u64| #[trigger] f.spec_tokens(o) == o_st.spec_tokens(o) by {}
        }
        Ok(())
    }

    /// Revoke `token_id`: set the terminal flag and append a "revoked" audit
    /// entry carrying the current metadata pointer, stamped `now`. Only the
    /// current owner may do this. Revoking again is not refused; it appends
    /// one more entry, so the flag stays set either way.
    pub fn revoke_consent(&mut self, caller: u64, token_id: u64, now: u64) -> (result: Result<
        (),
        ContractError,
    >)
        requires
            old(self).wf(),
        ensures
            final(self).wf(),
            result == old(self).spec_revoke_result(caller, token_id),
            result is Err ==> *final(self) == *old(self),
            result is Ok ==> {
                &&& final(self).record_count() == old(self).record_count()
                &&& forall|id: u64|
                    id != token_id && old(self).has_record(id)
                        ==> #[trigger] final(self).spec_record(id) == old(self).spec_record(id)
                &&& {
                    let r = final(self).spec_record(token_id);
                    let r0 = old(self).spec_record(token_id);
                    &&& r.owner == r0.owner
                    &&& r.revoked == true
                    &&& r.metadata == r0.metadata
                    &&& r.history@.len() == r0.history@.len() + 1
                    &&& forall|i: int|
                        0 <= i < r0.history@.len() ==> #[trigger] r.history@[i] == r0.history@[i]
                    &&& r.history@.last().action == ConsentAction::Revoked
                    &&& r.history@.last().timestamp == now
                    &&& r.history@.last().actor == r0.owner
                    &&& r.history@.last().metadata_uri == r0.metadata.metadata_uri
                }
                &&& forall|o: u64|
                    #[trigger] final(self).spec_tokens(o) == old(self).spec_tokens(o)
                &&& final(self).admin == old(self).admin
                &&& final(self).issuers@ == old(self).issuers@
            },
    {
        if !(token_id < self.records.len() as u64) {
            return Err(ContractError::TokenNotFound);
        }
        let idx: usize = token_id as usize;
        if self.records[idx].owner != caller {
            return Err(ContractError::NotAuthorized);
        }
        let mut rec = self.records.remove(idx);
        let ghost r0 = rec;
        rec.revoked = true;
        let entry = ConsentHistoryEntry {
            action: ConsentAction::Revoked,
            timestamp: now,
            actor: rec.owner,
            metadata_uri: rec.metadata.metadata_uri.clone(),
        };
        let ghost gentry = entry;
        rec.history.push(entry);
        let ghost rec1 = rec;
        self.records.insert(idx, rec);
        proof {
            let o_st = *old(self);
            let f = *self;
            assert(f.records@ =~= o_st.records@.update(idx as int, rec1));
            assert(o_st.has_record(token_id));
            assert(r0.wf());
            assert(rec1.history@ == r0.history@.push(gentry));
            lemma_count_action_push(r0.history@, gentry, ConsentAction::Updated);
            lemma_count_action_push(r0.history@, gentry, ConsentAction::Revoked);
            lemma_count_action_nonneg(r0.history@, ConsentAction::Revoked);
            assert(rec1.wf()) by {
                assert forall|i: int|
                    1 <= i < rec1.history@.len() implies (#[trigger] rec1.history@[i]).action
                    != ConsentAction::Issued by {
                    if i < r0.history@.len() {
                        assert(rec1.history@[i] == r0.history@[i]);
                    }
                }
            }
            assert forall|id: u64| #[trigger] f.has_record(id) implies f.spec_record(id).wf() by {
                assert(o_st.has_record(id));
                if id != token_id {
                    assert(f.spec_record(id) == o_st.spec_record(id));
                }
            }
            lemma_tokens_wf_same_owners(o_st, f);
            assert forall|o: u64| #[trigger] f.spec_tokens(o) == o_st.spec_tokens(o) by {}
        }
        Ok(())
    }

    /// Move `token_id` from `from` to `to` (the environment has
    /// authenticated `from`). The record must exist, be owned by `from`, and
    /// not be revoked; ownership is checked before revocation. The id leaves
    /// `from`'s ownership list and is appended to `to`'s. No audit entry is
    /// appended: transfers deliberately leave the trail untouched.
    pub fn transfer(&mut self, from: u64, to: u64, token_id: u64) -> (result: Result<
        (),
        ContractError,
    >)
        requires
            old(self).wf(),
        ensures
            final(self).wf(),
            result == old(self).spec_transfer_result(from, to, token_id),
            result is Err ==> *final(self) == *old(self),
            result is Ok ==> {
                &&& final(self).record_count() == old(self).record_count()
                &&& forall|id: u64|
                    id != token_id && old(self).has_record(id)
                        ==> #[trigger] final(self).spec_record(id) == old(self).spec_record(id)
                &&& {
                    let r = final(self).spec_record(token_id);
                    let r0 = old(self).spec_record(token_id);
                    &&& r.owner == to
                    &&& r.revoked == r0.revoked
                    &&& r.metadata == r0.metadata
                    &&& r.history@ == r0.history@
                }
                &&& from != to ==> final(self).spec_tokens(from) == remove_all(
                    old(self).spec_tokens(from),
                    token_id,
                )
                &&& from != to ==> !final(self).spec_tokens(from).contains(token_id)
                &&& final(self).spec_tokens(to) == (if from == to {
                    remove_all(old(self).spec_tokens(from), token_id)
                } else {
                    old(self).spec_tokens(to)
                }).push(token_id)
                &&& final(self).spec_tokens(to).contains(token_id)
                &&& forall|o: u64|
                    o != from && o != to ==> #[trigger] final(self).spec_tokens(o) == old(
                        self,
                    ).spec_tokens(o)
                &&& final(self).admin == old(self).admin
                &&& final(self).issuers@ == old(self).issuers@
            },
    {
        if !(token_id < self.records.len() as u64) {
            return Err(ContractError::TokenNotFound);
        }
        let idx: usize = token_id as usize;
        if self.records[idx].owner != from {
            return Err(ContractError::NotTokenOwner);
        }
        if self.records[idx].revoked {
            return Err(ContractError::ConsentRevoked);
        }
        let mut rec = self.records.remove(idx);
        let ghost r0 = rec;
        rec.owner = to;
        let ghost rec1 = rec;
        self.records.insert(idx, rec);
        let from_ids: Vec<u64> = match self.owner_index.remove(&from) {
            Some(v) => v,
            None => Vec::new(),
        };
        let ghost tf0 = old(self).spec_tokens(from);
        proof {
            assert(from_ids@ == tf0);
        }
        let mut kept: Vec<u64> = Vec::new();
        let n: usize = from_ids.len();
        let mut i: usize = 0;
        #[verifier::loop_isolation(false)]
        while i < n
            invariant
                i <= n,
                kept@ == remove_all(from_ids@.take(i as int), token_id),
            decreases n - i,
        {
            let v = from_ids[i];
            proof {
                assert(from_ids@.take(i as int + 1) =~= from_ids@.take(i as int).push(
                    from_ids@[i as int],
                ));
                lemma_remove_all_push(from_ids@.take(i as int), token_id, from_ids@[i as int]);
            }
            if v != token_id {
                kept.push(v);
            }
            i = i + 1;
        }
        proof {
            assert(from_ids@.take(n as int) =~= from_ids@);
            assert(kept@ == remove_all(tf0, token_id));
        }
        self.owner_index.insert(from, kept);
        let mut to_ids: Vec<u64> = match self.owner_index.remove(&to) {
            Some(v) => v,
            None => Vec::new(),
        };
        to_ids.push(token_id);
        self.owner_index.insert(to, to_ids);
        proof {
            let o_st = *old(self);
            let f = *self;
            let tid = token_id;
            let tt0 = o_st.spec_tokens(to);
            let ghost base = if from == to {
                remove_all(tf0, tid)
            } else {
                tt0
            };
            assert(f.records@ =~= o_st.records@.update(idx as int, rec1));
            assert(o_st.has_record(tid));
            assert(r0.wf());
            assert(rec1.wf());
            assert(f.spec_tokens(to) == base.push(tid));
            if from != to {
                assert(f.spec_tokens(from) == remove_all(tf0, tid));
                lemma_remove_all_membership(tf0, tid, tid);
            }
            lemma_push_membership(base, tid, tid);
            assert forall|id: u64| #[trigger] f.has_record(id) implies f.spec_record(id).wf() by {
                assert(o_st.has_record(id));
                if id != tid {
                    assert(f.spec_record(id) == o_st.spec_record(id));
                }
            }
            assert forall|o: u64, i2: int| 0 <= i2 < f.spec_tokens(o).len() implies f.has_record(
                #[trigger] f.spec_tokens(o)[i2],
            ) && f.spec_record(f.spec_tokens(o)[i2]).owner == o by {
                let e = f.spec_tokens(o)[i2];
                if o == to {
                    if i2 < base.len() {
                        assert(e == base[i2]);
                        if from == to {
                            lemma_remove_all_index(tf0, tid);
                            assert(e != tid && tf0.contains(e));
                            let k = choose|k: int| 0 <= k < tf0.len() && tf0[k] == e;
                            assert(o_st.spec_tokens(from)[k] == e);
                            assert(o_st.has_record(e) && o_st.spec_record(e).owner == from);
                        } else {
                            assert(o_st.spec_tokens(to)[i2] == e);
                            assert(o_st.has_record(e) && o_st.spec_record(e).owner == to);
                            assert(e != tid);
                        }
                        assert(f.spec_record(e) == o_st.spec_record(e));
                    } else {
                        assert(e == tid);
                        assert(f.spec_record(tid) == rec1);
                    }
                } else if o == from {
                    lemma_remove_all_index(tf0, tid);
                    assert(e != tid && tf0.contains(e));
                    let k = choose|k: int| 0 <= k < tf0.len() && tf0[k] == e;
                    assert(o_st.spec_tokens(from)[k] == e);
                    assert(o_st.has_record(e) && o_st.spec_record(e).owner == from);
                    assert(f.spec_record(e) == o_st.spec_record(e));
                } else {
                    assert(f.spec_tokens(o) == o_st.spec_tokens(o));
                    assert(o_st.has_record(o_st.spec_tokens(o)[i2]) && o_st.spec_record(
                        o_st.spec_tokens(o)[i2],
                    ).owner == o);
                    assert(e != tid);
                    assert(f.spec_record(e) == o_st.spec_record(e));
                }
            }
            assert forall|id: u64| #[trigger] f.has_record(id) implies f.spec_tokens(
                f.spec_record(id).owner,
            ).contains(id) by {
                assert(o_st.has_record(id));
                if id == tid {
                    assert(f.spec_record(tid).owner == to);
                } else {
                    assert(f.spec_record(id) == o_st.spec_record(id));
                    let w = o_st.spec_record(id).owner;
                    assert(o_st.spec_tokens(w).contains(id));
                    if w == to {
                        if from == to {
                            lemma_remove_all_membership(tf0, tid, id);
                        }
                        lemma_push_membership(base, tid, id);
                    } else if w == from {
                        lemma_remove_all_membership(tf0, tid, id);
                    } else {
                        assert(f.spec_tokens(w) == o_st.spec_tokens(w));
                    }
                }
            }
            assert forall|o: u64| distinct(#[trigger] f.spec_tokens(o)) by {
                if o == to {
                    assert(distinct(base)) by {
                        if from == to {
                            assert(distinct(tf0));
                            lemma_remove_all_distinct(tf0, tid);
                        } else {
                            assert(distinct(tt0));
                        }
                    }
                    assert(!base.contains(tid)) by {
                        if from == to {
                            lemma_remove_all_membership(tf0, tid, tid);
                        } else {
                            if tt0.contains(tid) {
                                let k = choose|k: int| 0 <= k < tt0.len() && tt0[k] == tid;
                                assert(o_st.spec_tokens(to)[k] == tid);
                                assert(o_st.spec_record(tid).owner == to);
                                assert(false);
                            }
                        }
                    }
                    assert forall|i2: int, j2: int|
                        0 <= i2 < j2 < f.spec_tokens(to).len() implies f.spec_tokens(to)[i2]
                        != f.spec_tokens(to)[j2] by {
                        if j2 < base.len() {
                            assert(f.spec_tokens(to)[i2] == base[i2] && f.spec_tokens(to)[j2]
                                == base[j2]);
                        } else {
                            assert(f.spec_tokens(to)[j2] == tid);
                            assert(f.spec_tokens(to)[i2] == base[i2]);
                            if base[i2] == tid {
                                assert(base.contains(tid));
                                assert(false);
                            }
                        }
                    }
                } else if o == from {
                    assert(distinct(tf0));
                    lemma_remove_all_distinct(tf0, tid);
                } else {
                    assert(f.spec_tokens(o) == o_st.spec_tokens(o));
                    assert(distinct(o_st.spec_tokens(o)));
                }
            }
        }
        Ok(())
    }

    /// Whether `who` may mint records. A pure, unauthenticated lookup.
    pub fn is_issuer(&self, who: u64) -> (r: bool)
        ensures
            r == self.spec_is_issuer(who),
    {
        let n: usize = self.issuers.len();
        let mut i: usize = 0;
        #[verifier::loop_isolation(false)]
        while i < n
            invariant
                i <= n,
                forall|j: int| 0 <= j < i ==> self.issuers@[j] != who,
            decreases n - i,
        {
            if self.issuers[i] == who {
                proof {
                    assert(self.issuers@[i as int] == who);
                }
                return true;
            }
            i = i + 1;
        }
        proof {
            if self.spec_is_issuer(who) {
                let j = choose|j: int| 0 <= j < self.issuers@.len() && self.issuers@[j] == who;
                assert(false);
            }
        }
        false
    }

    /// The current owner of `token_id`, or `TokenNotFound`.
    pub fn owner_of(&self, token_id: u64) -> (result: Result<u64, ContractError>)
        ensures
            self.has_record(token_id) ==> result == Ok::<u64, ContractError>(
                self.spec_record(token_id).owner,
            ),
            !self.has_record(token_id) ==> result == Err::<u64, ContractError>(
                ContractError::TokenNotFound,
            ),
    {
        if token_id < self.records.len() as u64 {
            let idx: usize = token_id as usize;
            Ok(self.records[idx].owner)
        } else {
            Err(ContractError::TokenNotFound)
        }
    }

    /// A copy of the metadata of `token_id`, or `TokenNotFound`.
    pub fn get_metadata(&self, token_id: u64) -> (result: Result<ConsentMetadata, ContractError>)
        ensures
            self.has_record(token_id) ==> result == Ok::<ConsentMetadata, ContractError>(
                self.spec_record(token_id).metadata,
            ),
            !self.has_record(token_id) ==> result == Err::<ConsentMetadata, ContractError>(
                ContractError::TokenNotFound,
            ),
    {
        if token_id < self.records.len() as u64 {
            let idx: usize = token_id as usize;
            Ok(self.records[idx].metadata.clone())
        } else {
            Err(ContractError::TokenNotFound)
        }
    }

    /// Whether `token_id` is revoked; unlike `owner_of` and `get_metadata`
    /// this does not fail on an unknown id but answers false.
    pub fn is_revoked(&self, token_id: u64) -> (r: bool)
        ensures
            r == (self.has_record(token_id) && self.spec_record(token_id).revoked),
    {
        if token_id < self.records.len() as u64 {
            let idx: usize = token_id as usize;
            self.records[idx].revoked
        } else {
            false
        }
    }

    /// A copy of the audit trail of `token_id`; empty for an unknown id,
    /// never an error.
    pub fn get_history(&self, token_id: u64) -> (h: Vec<ConsentHistoryEntry>)
        ensures
            self.has_record(token_id) ==> h@ == self.spec_record(token_id).history@,
            !self.has_record(token_id) ==> h@ == Seq::<ConsentHistoryEntry>::empty(),
    {
        if token_id < self.records.len() as u64 {
            let idx: usize = token_id as usize;
            clone_history(&self.records[idx].history)
        } else {
            Vec::new()
        }
    }

    /// A copy of the ownership list of `owner`; empty for an identity that
    /// holds nothing, never an error.
    pub fn tokens_of_owner(&self, owner: u64) -> (ids: Vec<u64>)
        ensures
            ids@ == self.spec_tokens(owner),
    {
        match self.owner_index.get(&owner) {
            Some(v) => copy_ids(v),
            None => Vec::new(),
        }
    }

    /// Whether `token_id` is valid at time `now`: false once revoked; true
    /// with expiry 0; otherwise true exactly while `now` is before the
    /// expiry. Fails `TokenNotFound` for an unknown id (unlike
    /// `is_revoked`, which defaults).
    pub fn is_valid(&self, token_id: u64, now: u64) -> (result: Result<bool, ContractError>)
        ensures
            result == self.spec_validity(token_id, now),
    {
        if !(token_id < self.records.len() as u64) {
            return Err(ContractError::TokenNotFound);
        }
        let idx: usize = token_id as usize;
        if self.records[idx].revoked {
            return Ok(false);
        }
        let expiry = self.records[idx].metadata.expiry_timestamp;
        if expiry == 0 {
            return Ok(true);
        }
        Ok(now < expiry)
    }
}

/// An element-wise copy of an audit trail.
fn clone_history(v: &Vec<ConsentHistoryEntry>) -> (out: Vec<ConsentHistoryEntry>)
    ensures
        out@ == v@,
{
    let mut out: Vec<ConsentHistoryEntry> = Vec::new();
    let n: usize = v.len();
    let mut i: usize = 0;
    #[verifier::loop_isolation(false)]
    while i < n
        invariant
            i <= n,
            out@ == v@.take(i as int),
        decreases n - i,
    {
        out.push(v[i].clone());
        proof {
            assert(v@.take(i as int + 1) =~= v@.take(i as int).push(v@[i as int]));
        }
        i = i + 1;
    }
    proof {
        assert(v@.take(n as int) =~= v@);
    }
    out
}

/// An element-wise copy of an id list.
fn copy_ids(v: &Vec<u64>) -> (out: Vec<u64>)
    ensures
        out@ == v@,
{
    let mut out: Vec<u64> = Vec::new();
    let n: usize = v.len();
    let mut i: usize = 0;
    #[verifier::loop_isolation(false)]
    while i < n
        invariant
            i <= n,
            out@ == v@.take(i as int),
        decreases n - i,
    {
        out.push(v[i]);
        proof {
            assert(v@.take(i as int + 1) =~= v@.take(i as int).push(v@[i as int]));
        }
        i = i + 1;
    }
    proof {
        assert(v@.take(n as int) =~= v@);
    }
    out
}

} // verus!
