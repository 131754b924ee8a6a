//! Consent records: metadata, the audit trail, and their well-formedness.

use vstd::prelude::*;

verus! {

/// What a single audit-trail entry records: the record was issued, its
/// metadata pointer was replaced, or the record was revoked.
#[derive(Clone, Copy, Debug, PartialEq, Eq)]
pub enum ConsentAction {
    Issued,
    Updated,
    Revoked,
}

/// The mutable metadata attached to a consent record.
///
/// `expiry_timestamp == 0` means the consent never expires. `version` starts
/// at 1 and grows by exactly 1 per successful update.
#[derive(Debug)]
pub struct ConsentMetadata {
    /// Opaque pointer to the consent document (an IPFS hash or similar).
    pub metadata_uri: String,
    /// The consent-type taxonomy label, kept as given at issuance.
    pub consent_type: String,
    /// The time at which the record was issued.
    pub issued_timestamp: u64,
    /// The time from which the consent counts as expired; 0 for no expiry.
    pub expiry_timestamp: u64,
    /// The identity that issued the record.
    pub issuer: u64,
    /// The metadata version, 1 at issuance.
    pub version: u32,
}

impl Clone for ConsentMetadata {
    fn clone(&self) -> (res: Self)
        ensures
            res == *self,
    {
        ConsentMetadata {
            metadata_uri: self.metadata_uri.clone(),
            consent_type: self.consent_type.clone(),
            issued_timestamp: self.issued_timestamp,
            expiry_timestamp: self.expiry_timestamp,
            issuer: self.issuer,
            version: self.version,
        }
    }
}

/// One entry of a record's append-only audit trail.
#[derive(Debug)]
pub struct ConsentHistoryEntry {
    /// Which operation appended this entry.
    pub action: ConsentAction,
    /// When the operation ran.
    pub timestamp: u64,
    /// The identity that performed the operation.
    pub actor: u64,
    /// The record's metadata pointer at that time.
    pub metadata_uri: String,
}

impl Clone for ConsentHistoryEntry {
    fn clone(&self) -> (res: Self)
        ensures
            res == *self,
    {
        ConsentHistoryEntry {
            action: self.action,
            timestamp: self.timestamp,
            actor: self.actor,
            metadata_uri: self.metadata_uri.clone(),
        }
    }
}

/// Everything the registry keeps about one issued consent record.
#[derive(Debug)]
pub struct ConsentRecord {
    /// The identity currently holding the record.
    pub owner: u64,
    /// The record's metadata.
    pub metadata: ConsentMetadata,
    /// Whether the record has been revoked; set once, never cleared.
    pub revoked: bool,
    /// The append-only audit trail, oldest entry first.
    pub history: Vec<ConsentHistoryEntry>,
}

/// How many entries of `h` carry the action `a`.
pub open spec fn count_action(h: Seq<ConsentHistoryEntry>, a: ConsentAction) -> int
    decreases h.len(),
{
    if h.len() == 0 {
        0
    } else {
        count_action(h.drop_last(), a) + if h.last().action == a {
            1int
        } else {
            0int
        }
    }
}

/// Appending one entry raises the count of exactly that entry's action by 1.
pub proof fn lemma_count_action_push(h: Seq<ConsentHistoryEntry>, e: ConsentHistoryEntry, a: ConsentAction)
    ensures
        count_action(h.push(e), a) == count_action(h, a) + if e.action == a {
            1int
        } else {
            0int
        },
{
    assert(h.push(e).drop_last() =~= h);
    assert(h.push(e).last() == e);
}

/// A count of entries is never negative.
pub proof fn lemma_count_action_nonneg(h: Seq<ConsentHistoryEntry>, a: ConsentAction)
    ensures
        count_action(h, a) >= 0,
    decreases h.len(),
{
    if h.len() > 0 {
        lemma_count_action_nonneg(h.drop_last(), a);
    }
}

impl ConsentRecord {
    /// The internal consistency every stored record keeps:
    /// the trail opens with the one "issued" entry and has no other;
    /// the version is 1 plus the number of "updated" entries;
    /// the record is revoked exactly when a "revoked" entry exists;
    /// and the newest entry carries the current metadata pointer.
    pub open spec fn wf(self) -> bool {
        &&& self.history@.len() >= 1
        &&& self.history@[0].action == ConsentAction::Issued
        &&& forall|i: int|
            1 <= i < self.history@.len() ==> (#[trigger] self.history@[i]).action
                != ConsentAction::Issued
        &&& self.metadata.version as int == 1 + count_action(self.history@, ConsentAction::Updated)
        &&& self.revoked <==> count_action(self.history@, ConsentAction::Revoked) > 0
        &&& self.metadata.metadata_uri@ == self.history@.last().metadata_uri@
    }
}

} // verus!
