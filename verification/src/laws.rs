//! The registry's general laws, stated once over the specification-level
//! views that the operation contracts use, and proved by Verus.

use vstd::prelude::*;

use crate::errors::ContractError;
use crate::records::{
    count_action, lemma_count_action_nonneg, ConsentAction, ConsentHistoryEntry,
};
use crate::registry::PatientConsentToken;
use crate::seq_ops::{lemma_remove_all_absent, remove_all};

verus! {

/// Removing an identity that is not on the allowlist is a no-op:
/// `remove_issuer` then leaves the list exactly as it was, and a second
/// removal of a member removes nothing further.
pub proof fn lemma_remove_non_member_is_noop(r: PatientConsentToken, issuer: u64)
    requires
        !r.spec_is_issuer(issuer),
    ensures
        remove_all(r.issuers@, issuer) == r.issuers@,
{
    lemma_remove_all_absent(r.issuers@, issuer);
}

/// Record ids are dense: exactly the ids below the issuance counter exist,
/// no gap, no reuse. Together with `mint_consent`'s contract — the returned
/// id equals the old counter, which grows by exactly one, while every other
/// operation keeps the record count — ids are issued exactly as 0, 1, 2, ...
/// in issuance order.
pub proof fn lemma_record_ids_dense(r: PatientConsentToken)
    ensures
        forall|id: u64| (#[trigger] r.has_record(id)) <==> (id as int) < r.record_count(),
{
}

/// A trail that opens with "issued" and never repeats it counts exactly one
/// "issued" entry.
proof fn lemma_one_issued(h: Seq<ConsentHistoryEntry>)
    requires
        h.len() >= 1,
        h[0].action == ConsentAction::Issued,
        forall|i: int| 1 <= i < h.len() ==> (#[trigger] h[i]).action != ConsentAction::Issued,
    ensures
        count_action(h, ConsentAction::Issued) == 1,
    decreases h.len(),
{
    if h.len() == 1 {
        assert(h.drop_last() =~= Seq::<ConsentHistoryEntry>::empty());
        assert(count_action(h.drop_last(), ConsentAction::Issued) == 0);
        assert(h.last() == h[0]);
        assert(count_action(h, ConsentAction::Issued) == 1);
    } else {
        let d = h.drop_last();
        assert(forall|i: int| 0 <= i < d.len() ==> #[trigger] d[i] == h[i]);
        assert(d[0].action == ConsentAction::Issued);
        assert(forall|i: int|
            1 <= i < d.len() ==> (#[trigger] d[i]).action != ConsentAction::Issued);
        lemma_one_issued(d);
        assert(h.last() == h[h.len() - 1]);
        assert(h.last().action != ConsentAction::Issued);
        assert(count_action(h, ConsentAction::Issued) == count_action(d, ConsentAction::Issued));
    }
}

/// Every audit entry is counted under exactly one of the three actions.
proof fn lemma_count_partition(h: Seq<ConsentHistoryEntry>)
    ensures
        count_action(h, ConsentAction::Issued) + count_action(h, ConsentAction::Updated)
            + count_action(h, ConsentAction::Revoked) == h.len(),
    decreases h.len(),
{
    if h.len() > 0 {
        lemma_count_partition(h.drop_last());
        match h.last().action {
            ConsentAction::Issued => {},
            ConsentAction::Updated => {},
            ConsentAction::Revoked => {},
        }
    }
}

/// In every well-formed registry, a record's version counts its successful
/// updates — version == 1 + number of "updated" entries — and its audit
/// trail holds exactly one "issued" entry, which opens it.
pub proof fn lemma_version_counts_updates(r: PatientConsentToken, token_id: u64)
    requires
        r.wf(),
        r.has_record(token_id),
    ensures
        r.spec_record(token_id).metadata.version as int == 1 + count_action(
            r.spec_record(token_id).history@,
            ConsentAction::Updated,
        ),
        count_action(r.spec_record(token_id).history@, ConsentAction::Issued) == 1,
        r.spec_record(token_id).history@[0].action == ConsentAction::Issued,
{
    let rec = r.spec_record(token_id);
    lemma_one_issued(rec.history@);
}

/// On a record that was never revoked, the audit trail is exactly one
/// "issued" entry plus one "updated" entry per update, so after N successful
/// updates the version is 1 + N and the trail length equals it.
pub proof fn lemma_unrevoked_trail_length(r: PatientConsentToken, token_id: u64)
    requires
        r.wf(),
        r.has_record(token_id),
        !r.spec_record(token_id).revoked,
    ensures
        r.spec_record(token_id).history@.len() == r.spec_record(token_id).metadata.version,
{
    let rec = r.spec_record(token_id);
    lemma_one_issued(rec.history@);
    lemma_count_partition(rec.history@);
    lemma_count_action_nonneg(rec.history@, ConsentAction::Revoked);
}

/// A revoked record is invalid at every time, and any update on it — or any
/// transfer asked by its true owner — fails `ConsentRevoked` (a non-owner's
/// transfer is refused `NotTokenOwner` first). Since every operation's
/// contract keeps the revoked flag of an existing record set, this holds in
/// every later state as well.
pub proof fn lemma_revoked_is_final(
    r: PatientConsentToken,
    caller: u64,
    from: u64,
    to: u64,
    token_id: u64,
    now: u64,
)
    requires
        r.has_record(token_id),
        r.spec_record(token_id).revoked,
    ensures
        r.spec_validity(token_id, now) == Ok::<bool, ContractError>(false),
        r.spec_update_result(caller, token_id) == Err::<(), ContractError>(
            ContractError::ConsentRevoked,
        ),
        r.spec_record(token_id).owner == from ==> r.spec_transfer_result(from, to, token_id)
            == Err::<(), ContractError>(ContractError::ConsentRevoked),
{
}

/// The ownership index is exact: `tokens_of_owner(o)` lists an id precisely
/// when that record exists and `owner_of` answers `o` — no stale entry after
/// a transfer, no missing one.
pub proof fn lemma_ownership_index_exact(r: PatientConsentToken, o: u64, token_id: u64)
    requires
        r.wf(),
    ensures
        r.spec_tokens(o).contains(token_id) <==> (r.has_record(token_id) && r.spec_record(
            token_id,
        ).owner == o),
{
    if r.spec_tokens(o).contains(token_id) {
        let i = choose|i: int| 0 <= i < r.spec_tokens(o).len() && r.spec_tokens(o)[i] == token_id;
        assert(r.has_record(r.spec_tokens(o)[i]) && r.spec_record(r.spec_tokens(o)[i]).owner == o);
    }
    if r.has_record(token_id) && r.spec_record(token_id).owner == o {
        assert(r.spec_tokens(r.spec_record(token_id).owner).contains(token_id));
    }
}

} // verus!
