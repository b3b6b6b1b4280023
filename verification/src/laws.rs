//! The guarantees of the protocol, stated and proved over the models that
//! the executable functions' contracts are written in.

use vstd::prelude::*;
use vstd::seq_lib::group_filter_ensures;
use crate::model::{TaintView, NodeStateView, has_taint_key};
use crate::policy::spec_user_taints;
use crate::reconcile::{
    spec_merge, spec_restored_keys, spec_candidates, spec_apply_is_noop,
};

verus! {

proof fn lemma_has_key_cons(ts: Seq<TaintView>, k: Seq<char>)
    requires
        ts.len() > 0,
    ensures
        has_taint_key(ts, k) <==> (ts[0].key == k || has_taint_key(ts.drop_first(), k)),
{
    let rest = ts.drop_first();
    if has_taint_key(ts, k) {
        let i = choose|i: int| 0 <= i < ts.len() && ts[i].key == k;
        if i > 0 {
            assert(rest[i - 1] == ts[i]);
            assert(has_taint_key(rest, k));
        }
    }
    if has_taint_key(rest, k) {
        let i = choose|i: int| 0 <= i < rest.len() && rest[i].key == k;
        assert(ts[i + 1] == rest[i]);
        assert(has_taint_key(ts, k));
    }
    if ts[0].key == k {
        assert(has_taint_key(ts, k));
    }
}

proof fn lemma_has_key_push(ts: Seq<TaintView>, t: TaintView, k: Seq<char>)
    ensures
        has_taint_key(ts.push(t), k) <==> (has_taint_key(ts, k) || t.key == k),
{
    if has_taint_key(ts.push(t), k) {
        let i = choose|i: int| 0 <= i < ts.push(t).len() && ts.push(t)[i].key == k;
        if i < ts.len() {
            assert(ts[i].key == k);
            assert(has_taint_key(ts, k));
        } else {
            assert(ts.push(t)[i] == t);
        }
    }
    if has_taint_key(ts, k) {
        let i = choose|i: int| 0 <= i < ts.len() && ts[i].key == k;
        assert(ts.push(t)[i] == ts[i]);
        assert(has_taint_key(ts.push(t), k));
    }
    if t.key == k {
        assert(ts.push(t)[ts.len() as int] == t);
        assert(has_taint_key(ts.push(t), k));
    }
}

/// The merge only appends: every live taint keeps its position and value.
pub proof fn lemma_merge_extends(live: Seq<TaintView>, cands: Seq<TaintView>)
    ensures
        spec_merge(live, cands).len() >= live.len(),
        spec_merge(live, cands).take(live.len() as int) == live,
    decreases cands.len(),
{
    if cands.len() == 0 {
        assert(live.take(live.len() as int) =~= live);
    } else if has_taint_key(live, cands[0].key) {
        lemma_merge_extends(live, cands.drop_first());
    } else {
        let l2 = live.push(cands[0]);
        lemma_merge_extends(l2, cands.drop_first());
        let m = spec_merge(l2, cands.drop_first());
        assert forall|i: int| 0 <= i < live.len() implies m[i] == live[i] by {
            assert(m.take(l2.len() as int)[i] == l2[i]);
        }
        assert(m.take(live.len() as int) =~= live);
    }
}

/// Every taint the merge appends has a key that no live taint carries.
pub proof fn lemma_merge_added(live: Seq<TaintView>, cands: Seq<TaintView>)
    ensures
        forall|j: int|
            live.len() <= j < spec_merge(live, cands).len() ==> !has_taint_key(
                live,
                #[trigger] spec_merge(live, cands)[j].key,
            ),
    decreases cands.len(),
{
    if cands.len() == 0 {
    } else if has_taint_key(live, cands[0].key) {
        lemma_merge_added(live, cands.drop_first());
    } else {
        let c0 = cands[0];
        let l2 = live.push(c0);
        lemma_merge_added(l2, cands.drop_first());
        lemma_merge_extends(l2, cands.drop_first());
        let m = spec_merge(l2, cands.drop_first());
        assert forall|j: int| live.len() <= j < m.len() implies !has_taint_key(
            live,
            #[trigger] m[j].key,
        ) by {
            if j == live.len() {
                assert(m.take(l2.len() as int)[j] == l2[j]);
                assert(m[j] == c0);
            } else {
                assert(!has_taint_key(l2, m[j].key));
                if has_taint_key(live, m[j].key) {
                    let w = choose|w: int| 0 <= w < live.len() && live[w].key == m[j].key;
                    assert(l2[w] == live[w]);
                    assert(has_taint_key(l2, m[j].key));
                }
            }
        }
    }
}

/// A key occurs in the merged list exactly when it occurs among the live
/// taints or among the candidates.
pub proof fn lemma_merge_keys(live: Seq<TaintView>, cands: Seq<TaintView>, k: Seq<char>)
    ensures
        has_taint_key(spec_merge(live, cands), k) <==> (has_taint_key(live, k) || has_taint_key(
            cands,
            k,
        )),
    decreases cands.len(),
{
    if cands.len() == 0 {
        if has_taint_key(cands, k) {
            let i = choose|i: int| 0 <= i < cands.len() && cands[i].key == k;
        }
    } else {
        lemma_has_key_cons(cands, k);
        if has_taint_key(live, cands[0].key) {
            lemma_merge_keys(live, cands.drop_first(), k);
        } else {
            let l2 = live.push(cands[0]);
            lemma_merge_keys(l2, cands.drop_first(), k);
            lemma_has_key_push(live, cands[0], k);
        }
    }
}

proof fn lemma_contains_cons(h: Seq<char>, s: Seq<Seq<char>>, k: Seq<char>)
    ensures
        (seq![h] + s).contains(k) <==> (h == k || s.contains(k)),
{
    let c = seq![h] + s;
    if c.contains(k) {
        let i = choose|i: int| 0 <= i < c.len() && c[i] == k;
        if i > 0 {
            assert(s[i - 1] == c[i]);
        }
    }
    if s.contains(k) {
        let i = choose|i: int| 0 <= i < s.len() && s[i] == k;
        assert(c[i + 1] == s[i]);
    }
    if h == k {
        assert(c[0] == h);
    }
}

/// A key is restored exactly when some candidate carries it and no live
/// taint does.
pub proof fn lemma_restored_keys(live: Seq<TaintView>, cands: Seq<TaintView>, k: Seq<char>)
    ensures
        spec_restored_keys(live, cands).contains(k) <==> (has_taint_key(cands, k)
            && !has_taint_key(live, k)),
    decreases cands.len(),
{
    if cands.len() == 0 {
        if has_taint_key(cands, k) {
            let i = choose|i: int| 0 <= i < cands.len() && cands[i].key == k;
        }
        assert(!spec_restored_keys(live, cands).contains(k)) by {
            if spec_restored_keys(live, cands).contains(k) {
                let i = choose|i: int|
                    0 <= i < spec_restored_keys(live, cands).len() && spec_restored_keys(
                        live,
                        cands,
                    )[i] == k;
            }
        }
    } else {
        lemma_has_key_cons(cands, k);
        if has_taint_key(live, cands[0].key) {
            lemma_restored_keys(live, cands.drop_first(), k);
        } else {
            let c0 = cands[0];
            let l2 = live.push(c0);
            lemma_restored_keys(l2, cands.drop_first(), k);
            lemma_has_key_push(live, c0, k);
            lemma_contains_cons(c0.key, spec_restored_keys(l2, cands.drop_first()), k);
        }
    }
}

/// Every user taint comes from the input list.
proof fn lemma_user_taints_subset(ts: Seq<TaintView>, extra: Seq<Seq<char>>, k: Seq<char>)
    requires
        has_taint_key(spec_user_taints(ts, extra), k),
    ensures
        has_taint_key(ts, k),
    decreases ts.len(),
{
    reveal(Seq::filter);
    let user = spec_user_taints(ts, extra);
    if ts.len() > 0 {
        let dl = ts.drop_last();
        let userdl = spec_user_taints(dl, extra);
        let i = choose|i: int| 0 <= i < user.len() && user[i].key == k;
        if i < userdl.len() {
            assert(user[i] == userdl[i]);
            assert(has_taint_key(userdl, k));
            lemma_user_taints_subset(dl, extra, k);
            let j = choose|j: int| 0 <= j < dl.len() && dl[j].key == k;
            assert(ts[j] == dl[j]);
            assert(has_taint_key(ts, k));
        } else {
            assert(user[i] == ts.last());
            assert(ts[ts.len() - 1].key == k);
            assert(has_taint_key(ts, k));
        }
    }
}

/// No-overwrite: if a live taint carries key `i`'s key, the merged list
/// keeps that taint — same position, same value — and nothing the merge
/// appends carries a key already live.
pub proof fn lemma_no_overwrite(live: Seq<TaintView>, cands: Seq<TaintView>, i: int)
    requires
        0 <= i < live.len(),
    ensures
        spec_merge(live, cands).len() >= live.len(),
        spec_merge(live, cands)[i] == live[i],
        forall|j: int|
            live.len() <= j < spec_merge(live, cands).len() ==> !has_taint_key(
                live,
                #[trigger] spec_merge(live, cands)[j].key,
            ),
{
    lemma_merge_extends(live, cands);
    lemma_merge_added(live, cands);
    assert(spec_merge(live, cands).take(live.len() as int)[i] == live[i]);
}

/// Protected-taint exclusion: a protected key never survives the user-taint
/// filter, so it is never persisted; and even when an external actor plants
/// it in the record, it is never restored: the merge leaves its presence on
/// the node exactly as it was.
pub proof fn lemma_protected_taint_exclusion(
    record: Seq<TaintView>,
    live: Seq<TaintView>,
    extra: Seq<Seq<char>>,
    k: Seq<char>,
)
    requires
        crate::policy::spec_is_protected(k, extra),
    ensures
        !has_taint_key(spec_user_taints(record, extra), k),
        !spec_restored_keys(live, spec_user_taints(record, extra)).contains(k),
        has_taint_key(spec_merge(live, spec_user_taints(record, extra)), k) <==> has_taint_key(
            live,
            k,
        ),
{
    broadcast use group_filter_ensures;

    let user = spec_user_taints(record, extra);
    assert(!has_taint_key(user, k)) by {
        if has_taint_key(user, k) {
            let i = choose|i: int| 0 <= i < user.len() && user[i].key == k;
        }
    }
    lemma_restored_keys(live, user, k);
    lemma_merge_keys(live, user, k);
}

/// Deletion respected: a key absent from the node at Cleanup time is absent
/// from the written record, and a later Apply reading that record neither
/// restores it nor changes whether the node carries it.
pub proof fn lemma_deletion_respected(
    cleanup_live: Seq<TaintView>,
    extra: Seq<Seq<char>>,
    next_live: Seq<TaintView>,
    k: Seq<char>,
)
    requires
        !has_taint_key(cleanup_live, k),
    ensures
        !has_taint_key(spec_user_taints(cleanup_live, extra), k),
        !spec_restored_keys(next_live, spec_user_taints(cleanup_live, extra)).contains(k),
        has_taint_key(spec_merge(next_live, spec_user_taints(cleanup_live, extra)), k)
            <==> has_taint_key(next_live, k),
{
    let user = spec_user_taints(cleanup_live, extra);
    assert(!has_taint_key(user, k)) by {
        if has_taint_key(user, k) {
            lemma_user_taints_subset(cleanup_live, extra, k);
        }
    }
    lemma_restored_keys(next_live, user, k);
    lemma_merge_keys(next_live, user, k);
}

/// The node state after an Apply patch: the merged taints, the idempotence
/// annotation set, the finalizer attached.
pub open spec fn spec_apply_patch(n: NodeStateView, merged: Seq<TaintView>) -> NodeStateView {
    NodeStateView {
        name: n.name,
        taints: merged,
        has_restored_annotation: true,
        has_finalizer: true,
        deletion_timestamp: n.deletion_timestamp,
    }
}

/// Idempotence: the Apply patch always sets the idempotence annotation, so
/// a second Apply on the patched state — whatever record it would read — is
/// a no-op: no store access, no patch, no event.
pub proof fn lemma_apply_idempotent(n: NodeStateView, merged: Seq<TaintView>)
    ensures
        spec_apply_is_noop(spec_apply_patch(n, merged)),
{
}

/// Empty roundtrip: a Cleanup that saw no user taints writes a record with
/// an absent taint list, and the Apply that reads it back restores nothing
/// and leaves the node's taints untouched.
pub proof fn lemma_empty_roundtrip(next_live: Seq<TaintView>, extra: Seq<Seq<char>>)
    ensures
        spec_candidates(None, extra) == Seq::<TaintView>::empty(),
        spec_merge(next_live, spec_candidates(None, extra)) == next_live,
        spec_restored_keys(next_live, spec_candidates(None, extra)).len() == 0,
{
}

} // verus!
