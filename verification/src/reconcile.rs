//! Reconciliation state machine: the finalizer-gated Apply/Cleanup protocol
//! as a pure function of the observed node state.
//!
//! The surrounding driver delivers a node snapshot, performs the external
//! reads and writes that a plan calls for, and feeds results back in; every
//! decision is made here.

use vstd::prelude::*;
use crate::codec::{configmap_name, spec_configmap_name};
use crate::model::{Taint, TaintView, NodeState, NodeStateView, Error, taints_view, has_taint_key};
use crate::policy::{spec_user_taints, filter_protected_taints};
use crate::record::{decode_taints, encode_taints, parse_taints, json_of_taints};
use crate::text::str_equal;

verus! {

/// How many restored keys an event message lists before truncating.
pub const EVENT_KEY_LIMIT: usize = 5;

/// The merge of persisted candidate taints into the live taint list: a
/// candidate is appended only when no taint with its key is present yet, so
/// live taints are never overwritten and the first candidate per key wins.
pub open spec fn spec_merge(live: Seq<TaintView>, cands: Seq<TaintView>) -> Seq<TaintView>
    decreases cands.len(),
{
    if cands.len() == 0 {
        live
    } else if has_taint_key(live, cands[0].key) {
        spec_merge(live, cands.drop_first())
    } else {
        spec_merge(live.push(cands[0]), cands.drop_first())
    }
}

/// The keys of the candidates that the merge appends, in merge order.
pub open spec fn spec_restored_keys(live: Seq<TaintView>, cands: Seq<TaintView>) -> Seq<Seq<char>>
    decreases cands.len(),
{
    if cands.len() == 0 {
        Seq::<Seq<char>>::empty()
    } else if has_taint_key(live, cands[0].key) {
        spec_restored_keys(live, cands.drop_first())
    } else {
        seq![cands[0].key] + spec_restored_keys(live.push(cands[0]), cands.drop_first())
    }
}

/// Whether some taint of `ts` carries the key of `key`.
pub fn taints_contain_key(ts: &Vec<Taint>, key: &str) -> (r: bool)
    ensures
        r == has_taint_key(taints_view(ts@), key@),
{
    let ghost tv = taints_view(ts@);
    let mut i: usize = 0;
    while i < ts.len()
        invariant
            0 <= i <= ts.len(),
            tv == taints_view(ts@),
            tv.len() == ts.len(),
            forall|j: int| 0 <= j < i ==> tv[j].key != key@,
        decreases ts.len() - i,
    {
        if str_equal(ts[i].key.as_str(), key) {
            assert(tv[i as int].key == key@);
            return true;
        }
        i = i + 1;
    }
    false
}

fn clone_taints(v: &Vec<Taint>) -> (r: Vec<Taint>)
    ensures
        taints_view(r@) == taints_view(v@),
{
    let mut r: Vec<Taint> = Vec::new();
    let mut i: usize = 0;
    while i < v.len()
        invariant
            0 <= i <= v.len(),
            r@.len() == i,
            forall|j: int| 0 <= j < i ==> r@[j]@ == v@[j]@,
        decreases v.len() - i,
    {
        r.push(v[i].clone());
        i = i + 1;
    }
    proof {
        assert(taints_view(r@) =~= taints_view(v@));
    }
    r
}

/// Merges the candidate taints into the live list. Returns the merged list
/// and the keys of the candidates that were actually added.
pub fn merge_taints(live: &Vec<Taint>, candidates: &Vec<Taint>) -> (r: (Vec<Taint>, Vec<String>))
    ensures
        taints_view(r.0@) == spec_merge(taints_view(live@), taints_view(candidates@)),
        r.1.deep_view() == spec_restored_keys(taints_view(live@), taints_view(candidates@)),
{
    let ghost lv = taints_view(live@);
    let ghost cv = taints_view(candidates@);
    let mut merged = clone_taints(live);
    let mut restored: Vec<String> = Vec::new();
    proof {
        assert(cv.skip(0) =~= cv);
        assert(restored.deep_view() =~= Seq::<Seq<char>>::empty());
    }
    let mut i: usize = 0;
    while i < candidates.len()
        invariant
            0 <= i <= candidates.len(),
            lv == taints_view(live@),
            cv == taints_view(candidates@),
            cv.len() == candidates.len(),
            spec_merge(lv, cv) == spec_merge(taints_view(merged@), cv.skip(i as int)),
            spec_restored_keys(lv, cv) == restored.deep_view() + spec_restored_keys(
                taints_view(merged@),
                cv.skip(i as int),
            ),
        decreases candidates.len() - i,
    {
        proof {
            assert(cv.skip(i as int).drop_first() =~= cv.skip(i + 1));
            assert(cv.skip(i as int)[0] == cv[i as int]);
        }
        let ghost m0 = taints_view(merged@);
        let ghost r0 = restored.deep_view();
        if !taints_contain_key(&merged, candidates[i].key.as_str()) {
            restored.push(candidates[i].key.clone());
            merged.push(candidates[i].clone());
            proof {
                assert(taints_view(merged@) =~= m0.push(cv[i as int]));
                assert(restored.deep_view() =~= r0.push(cv[i as int].key));
                assert(r0 + (seq![cv[i as int].key] + spec_restored_keys(
                    m0.push(cv[i as int]),
                    cv.skip(i + 1),
                )) =~= restored.deep_view() + spec_restored_keys(
                    m0.push(cv[i as int]),
                    cv.skip(i + 1),
                ));
            }
        }
        i = i + 1;
    }
    proof {
        assert(cv.skip(candidates.len() as int) =~= Seq::<TaintView>::empty());
        assert(spec_restored_keys(lv, cv) =~= restored.deep_view());
    }
    (merged, restored)
}

/// Which branch of the protocol a node snapshot selects.
#[derive(Clone, Copy, Debug, PartialEq, Eq, Structural)]
pub enum Phase {
    /// Not marked for deletion: restore persisted taints if needed.
    Apply,
    /// Marked for deletion with this service's finalizer attached: persist
    /// the user taints, then release the finalizer.
    Cleanup,
    /// Marked for deletion without the finalizer: nothing left to do.
    Idle,
}

/// The phase a snapshot is in.
pub open spec fn spec_phase(n: NodeStateView) -> Phase {
    if n.deletion_timestamp is None {
        Phase::Apply
    } else if n.has_finalizer {
        Phase::Cleanup
    } else {
        Phase::Idle
    }
}

/// Chooses the protocol phase from the snapshot: Apply while the object is
/// live, Cleanup once it is marked for deletion and still carries the
/// finalizer, Idle otherwise.
pub fn phase(node: &NodeState) -> (r: Phase)
    ensures
        r == spec_phase(node@),
{
    match node.deletion_timestamp {
        None => Phase::Apply,
        Some(_) => if node.has_finalizer {
            Phase::Cleanup
        } else {
            Phase::Idle
        },
    }
}

/// Reason of the informational event the Apply patch is accompanied by.
#[derive(Clone, Copy, Debug, PartialEq, Eq, Structural)]
pub enum EventReason {
    TaintsRestored,
    NoTaintsToRestore,
}

/// What the event accompanying an Apply patch reports: the reason, the
/// restored keys to list verbatim (at most `EVENT_KEY_LIMIT`), the total
/// count, and whether the listing was truncated.
pub struct EventPlan {
    pub reason: EventReason,
    pub keys_listed: Vec<String>,
    pub total_restored: usize,
    pub truncated: bool,
}

/// The single combined patch an Apply issues: the merged taint list, the
/// idempotence annotation, and the finalizer; plus the event to emit.
pub struct ApplyPlan {
    pub merged_taints: Vec<Taint>,
    pub restored_keys: Vec<String>,
    pub event: EventPlan,
}

/// The outcome of the Apply phase.
pub enum ApplyOutcome {
    /// The idempotence annotation is already present: no reads, no writes,
    /// no events.
    AlreadyRestored,
    /// Issue the combined patch and emit the event.
    Patch(ApplyPlan),
}

/// The candidate taints an Apply may restore: the persisted record's
/// taints with every protected taint removed; an absent record offers none.
pub open spec fn spec_candidates(record: Option<Seq<TaintView>>, extra: Seq<Seq<char>>) -> Seq<
    TaintView,
> {
    match record {
        Some(ts) => spec_user_taints(ts, extra),
        None => Seq::<TaintView>::empty(),
    }
}

/// An Apply is a no-op exactly when the idempotence annotation is present.
pub open spec fn spec_apply_is_noop(n: NodeStateView) -> bool {
    n.has_restored_annotation
}

fn first_keys(v: &Vec<String>, limit: usize) -> (r: Vec<String>)
    ensures
        r.deep_view() == if v@.len() <= limit {
            v.deep_view()
        } else {
            v.deep_view().take(limit as int)
        },
{
    let n = if v.len() <= limit {
        v.len()
    } else {
        limit
    };
    let mut r: Vec<String> = Vec::new();
    let mut i: usize = 0;
    while i < n
        invariant
            0 <= i <= n <= v.len(),
            r@.len() == i,
            forall|j: int| 0 <= j < i ==> r@[j]@ == v@[j]@,
        decreases n - i,
    {
        r.push(v[i].clone());
        i = i + 1;
    }
    proof {
        if v@.len() <= limit {
            assert(r.deep_view() =~= v.deep_view());
        } else {
            assert(r.deep_view() =~= v.deep_view().take(limit as int));
        }
    }
    r
}

/// Plans the Apply phase from the node snapshot and the (already decoded)
/// persisted record. If the idempotence annotation is present this is a
/// no-op; otherwise a single combined patch merges the record's
/// non-protected taints into the live list without touching any live taint,
/// sets the annotation, attaches the finalizer, and reports an event.
pub fn plan_apply(node: &NodeState, record: Option<&Vec<Taint>>, extra_prefixes: &Vec<String>) -> (r:
    ApplyOutcome)
    ensures
        ({
            let cands = spec_candidates(
                match record {
                    Some(v) => Some(taints_view(v@)),
                    None => None,
                },
                extra_prefixes.deep_view(),
            );
            let merged = spec_merge(node@.taints, cands);
            let restored = spec_restored_keys(node@.taints, cands);
            match r {
                ApplyOutcome::AlreadyRestored => spec_apply_is_noop(node@),
                ApplyOutcome::Patch(p) => {
                    &&& !spec_apply_is_noop(node@)
                    &&& taints_view(p.merged_taints@) == merged
                    &&& p.restored_keys.deep_view() == restored
                    &&& p.event.reason == (if restored.len() > 0 {
                        EventReason::TaintsRestored
                    } else {
                        EventReason::NoTaintsToRestore
                    })
                    &&& p.event.total_restored == restored.len()
                    &&& p.event.truncated == (restored.len() > EVENT_KEY_LIMIT)
                    &&& p.event.keys_listed.deep_view() == (if restored.len() <= EVENT_KEY_LIMIT {
                        restored
                    } else {
                        restored.take(EVENT_KEY_LIMIT as int)
                    })
                },
            }
        }),
{
    if node.has_restored_annotation {
        return ApplyOutcome::AlreadyRestored;
    }
    let candidates: Vec<Taint> = match record {
        Some(ts) => filter_protected_taints(clone_taints(ts), extra_prefixes),
        None => Vec::new(),
    };
    proof {
        if record is None {
            assert(taints_view(candidates@) =~= Seq::<TaintView>::empty());
        }
    }
    let (merged, restored) = merge_taints(&node.taints, &candidates);
    let total = restored.len();
    let truncated = total > EVENT_KEY_LIMIT;
    let keys_listed = first_keys(&restored, EVENT_KEY_LIMIT);
    let reason = if total > 0 {
        EventReason::TaintsRestored
    } else {
        EventReason::NoTaintsToRestore
    };
    proof {
        assert(restored.deep_view().len() == restored@.len());
    }
    ApplyOutcome::Patch(
        ApplyPlan {
            merged_taints: merged,
            restored_keys: restored,
            event: EventPlan { reason, keys_listed, total_restored: total, truncated },
        },
    )
}

/// Ceiling, in seconds, on how long a Cleanup may keep blocking the
/// object's deletion before the finalizer is released regardless.
pub const CLEANUP_CEILING_SECS: u64 = 3600;

/// Whether a Cleanup observed at `now` (Unix seconds) has been pending
/// longer than the ceiling since the deletion timestamp; a deletion stamped
/// in the future counts as not yet elapsed.
pub open spec fn spec_cleanup_overdue(deletion: Option<i64>, now: i64) -> bool {
    match deletion {
        Some(d) => d <= now && now - d > CLEANUP_CEILING_SECS,
        None => false,
    }
}

/// What the store is asked to write at Cleanup: the record, under the
/// identity-derived name, holding the encoded user taints (absent when
/// there are none — distinct from writing nothing at all) and the
/// originating node's name.
pub struct RecordPlan {
    pub record_name: String,
    pub node_name: String,
    pub taints_json: Option<String>,
}

/// The outcome of the Cleanup phase; both variants end with the finalizer
/// released, but only a write guarantees the record matches the live state.
pub enum CleanupOutcome {
    /// The ceiling elapsed: give up waiting and release the finalizer
    /// without touching the record.
    ForcedRelease,
    /// Write (create or replace) the record, then release the finalizer.
    WriteAndRelease(RecordPlan),
}

/// Plans the Cleanup phase: unconditionally snapshot the node's user taints
/// into the record — an empty snapshot is written as an absent taint list,
/// never skipped — unless the deletion has been blocked longer than the
/// ceiling, in which case the finalizer is released without a write.
pub fn plan_cleanup(node: &NodeState, now_unix: i64, extra_prefixes: &Vec<String>) -> (r: Result<
    CleanupOutcome,
    Error,
>)
    ensures
        ({
            match r {
                Err(e) => node@.name is None && e is MissingNodeName,
                Ok(o) => node@.name is Some && match o {
                    CleanupOutcome::ForcedRelease => spec_cleanup_overdue(
                        node@.deletion_timestamp,
                        now_unix,
                    ),
                    CleanupOutcome::WriteAndRelease(rp) => {
                        let user = spec_user_taints(node@.taints, extra_prefixes.deep_view());
                        &&& !spec_cleanup_overdue(node@.deletion_timestamp, now_unix)
                        &&& rp.record_name@ == spec_configmap_name(node@.name.unwrap())
                        &&& rp.node_name@ == node@.name.unwrap()
                        &&& match rp.taints_json {
                            None => user.len() == 0,
                            Some(j) => user.len() > 0 && j@ == json_of_taints(user),
                        }
                    },
                },
            }
        }),
{
    let name: &String = match &node.name {
        Some(n) => n,
        None => {
            return Err(Error::MissingNodeName);
        },
    };
    let overdue = match node.deletion_timestamp {
        Some(d) => {
            let elapsed_ok = d <= now_unix;
            elapsed_ok && (now_unix as i128) - (d as i128) > (CLEANUP_CEILING_SECS as i128)
        },
        None => false,
    };
    if overdue {
        return Ok(CleanupOutcome::ForcedRelease);
    }
    let user = filter_protected_taints(clone_taints(&node.taints), extra_prefixes);
    let taints_json = if user.len() == 0 {
        None
    } else {
        Some(encode_taints(&user))
    };
    let record_name = configmap_name(name.as_str());
    let node_name = name.clone();
    Ok(CleanupOutcome::WriteAndRelease(RecordPlan { record_name, node_name, taints_json }))
}

/// Runs the Apply phase end to end from the raw record content: decodes the
/// persisted JSON (an absent record or field restores nothing), then plans
/// the merge. Malformed JSON fails the attempt closed.
pub fn reconcile_apply(
    node: &NodeState,
    record_json: Option<&String>,
    extra_prefixes: &Vec<String>,
) -> (r: Result<ApplyOutcome, Error>)
    ensures
        ({
            let decoded = match record_json {
                Some(js) => parse_taints(js@),
                None => Some(Seq::<TaintView>::empty()),
            };
            match r {
                Err(e) => {
                    &&& !spec_apply_is_noop(node@)
                    &&& e is Serialization
                    &&& decoded is None
                },
                Ok(o) => {
                    let cands = spec_candidates(decoded, extra_prefixes.deep_view());
                    let merged = spec_merge(node@.taints, cands);
                    let restored = spec_restored_keys(node@.taints, cands);
                    match o {
                        ApplyOutcome::AlreadyRestored => spec_apply_is_noop(node@),
                        ApplyOutcome::Patch(p) => {
                            &&& !spec_apply_is_noop(node@)
                            &&& decoded is Some
                            &&& taints_view(p.merged_taints@) == merged
                            &&& p.restored_keys.deep_view() == restored
                            &&& p.event.reason == (if restored.len() > 0 {
                                EventReason::TaintsRestored
                            } else {
                                EventReason::NoTaintsToRestore
                            })
                            &&& p.event.total_restored == restored.len()
                            &&& p.event.truncated == (restored.len() > EVENT_KEY_LIMIT)
                            &&& p.event.keys_listed.deep_view() == (if restored.len()
                                <= EVENT_KEY_LIMIT {
                                restored
                            } else {
                                restored.take(EVENT_KEY_LIMIT as int)
                            })
                        },
                    }
                },
            }
        }),
{
    if node.has_restored_annotation {
        return Ok(ApplyOutcome::AlreadyRestored);
    }
    let decoded: Option<Vec<Taint>> = match record_json {
        Some(js) => match decode_taints(js.as_str()) {
            Ok(ts) => Some(ts),
            Err(e) => {
                return Err(e);
            },
        },
        None => None,
    };
    let out = match &decoded {
        Some(v) => plan_apply(node, Some(v), extra_prefixes),
        None => plan_apply(node, None, extra_prefixes),
    };
    proof {
        if decoded is None {
            assert(spec_candidates(Some(Seq::<TaintView>::empty()), extra_prefixes.deep_view())
                =~= spec_candidates(None, extra_prefixes.deep_view()));
        }
    }
    Ok(out)
}

} // verus!
