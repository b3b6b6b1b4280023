//! Taint policy: classifies a taint as system-protected or user-owned.
//!
//! A protected taint is owned by the platform itself and must never be
//! captured into, or restored out of, a persisted taint record.

use vstd::prelude::*;
use crate::model::{Taint, TaintView, taints_view};
use crate::text::{spec_starts_with, str_starts_with, str_equal};

verus! {

/// Keys that are protected by exact match.
pub open spec fn protected_key_literals() -> Seq<Seq<char>> {
    seq!["CriticalAddonsOnly"@]
}

/// Key prefixes that mark a taint as platform-managed.
pub open spec fn protected_prefixes() -> Seq<Seq<char>> {
    seq![
        "node.kubernetes.io/"@,
        "node.cloudprovider.kubernetes.io/"@,
        "node-role.kubernetes.io/"@,
    ]
}

/// A key is protected when it equals a protected literal, starts with a
/// fixed system prefix, or starts with one of the configured extra prefixes.
pub open spec fn spec_is_protected(key: Seq<char>, extra: Seq<Seq<char>>) -> bool {
    ||| protected_key_literals().contains(key)
    ||| exists|i: int|
        0 <= i < protected_prefixes().len() && spec_starts_with(key, protected_prefixes()[i])
    ||| exists|i: int| 0 <= i < extra.len() && spec_starts_with(key, extra[i])
}

/// Whether `taint` is protected and so must not be stored or restored.
pub fn is_taint_protected(taint: &Taint, extra_prefixes: &Vec<String>) -> (r: bool)
    ensures
        r == spec_is_protected(taint@.key, extra_prefixes.deep_view()),
{
    let key: &str = taint.key.as_str();
    if str_equal(key, "CriticalAddonsOnly") {
        assert(protected_key_literals()[0] == "CriticalAddonsOnly"@);
        return true;
    }
    if str_starts_with(key, "node.kubernetes.io/") {
        assert(spec_starts_with(taint@.key, protected_prefixes()[0]));
        return true;
    }
    if str_starts_with(key, "node.cloudprovider.kubernetes.io/") {
        assert(spec_starts_with(taint@.key, protected_prefixes()[1]));
        return true;
    }
    if str_starts_with(key, "node-role.kubernetes.io/") {
        assert(spec_starts_with(taint@.key, protected_prefixes()[2]));
        return true;
    }
    let ghost extra: Seq<Seq<char>> = extra_prefixes.deep_view();
    let mut i: usize = 0;
    while i < extra_prefixes.len()
        invariant
            0 <= i <= extra_prefixes.len(),
            extra == extra_prefixes.deep_view(),
            extra.len() == extra_prefixes.len(),
            key@ == taint@.key,
            forall|j: int| 0 <= j < i ==> !spec_starts_with(taint@.key, extra[j]),
        decreases extra_prefixes.len() - i,
    {
        proof {
            assert(extra[i as int] == extra_prefixes@[i as int]@);
        }
        if str_starts_with(key, extra_prefixes[i].as_str()) {
            assert(spec_starts_with(taint@.key, extra[i as int]));
            return true;
        }
        i = i + 1;
    }
    assert(!protected_key_literals().contains(taint@.key)) by {
        assert(forall|j: int|
            0 <= j < protected_key_literals().len() ==> protected_key_literals()[j]
                == "CriticalAddonsOnly"@);
    }
    assert(forall|j: int|
        0 <= j < protected_prefixes().len() ==> !spec_starts_with(
            taint@.key,
            protected_prefixes()[j],
        ));
    false
}

/// The user-owned (non-protected) taints of `ts`, in order.
pub open spec fn spec_user_taints(ts: Seq<TaintView>, extra: Seq<Seq<char>>) -> Seq<TaintView> {
    ts.filter(|t: TaintView| !spec_is_protected(t.key, extra))
}

/// Returns the sublist of taints that are not protected, preserving order.
pub fn filter_protected_taints(taints: Vec<Taint>, extra_prefixes: &Vec<String>) -> (r: Vec<Taint>)
    ensures
        taints_view(r@) == spec_user_taints(taints_view(taints@), extra_prefixes.deep_view()),
{
    let ghost extra: Seq<Seq<char>> = extra_prefixes.deep_view();
    let ghost tv: Seq<TaintView> = taints_view(taints@);
    let ghost pred = |t: TaintView| !spec_is_protected(t.key, extra);
    let mut out: Vec<Taint> = Vec::new();
    proof {
        reveal(Seq::filter);
        assert(tv.take(0) =~= Seq::<TaintView>::empty());
    }
    let mut i: usize = 0;
    while i < taints.len()
        invariant
            0 <= i <= taints.len(),
            extra == extra_prefixes.deep_view(),
            tv == taints_view(taints@),
            tv.len() == taints.len(),
            pred == (|t: TaintView| !spec_is_protected(t.key, extra)),
            taints_view(out@) == tv.take(i as int).filter(pred),
        decreases taints.len() - i,
    {
        proof {
            reveal(Seq::filter);
            assert(tv.take(i + 1).drop_last() =~= tv.take(i as int));
            assert(tv.take(i + 1).last() == tv[i as int]);
        }
        if !is_taint_protected(&taints[i], extra_prefixes) {
            let t = taints[i].clone();
            out.push(t);
            proof {
                assert(taints_view(out@) =~= tv.take(i as int).filter(pred).push(tv[i as int]));
                assert(tv.take(i + 1).filter(pred) =~= tv.take(i as int).filter(pred).push(
                    tv[i as int],
                ));
            }
        } else {
            proof {
                assert(tv.take(i + 1).filter(pred) =~= tv.take(i as int).filter(pred));
            }
        }
        i = i + 1;
    }
    proof {
        assert(tv.take(taints.len() as int) =~= tv);
    }
    out
}

/// No user taint is protected: every element that `filter_protected_taints`
/// keeps fails the protection predicate, and every non-protected element of
/// the input is kept, in order.
pub proof fn lemma_user_taints_exclude_protected(ts: Seq<TaintView>, extra: Seq<Seq<char>>)
    ensures
        forall|i: int|
            0 <= i < spec_user_taints(ts, extra).len() ==> !spec_is_protected(
                #[trigger] spec_user_taints(ts, extra)[i].key,
                extra,
            ),
        forall|i: int|
            0 <= i < ts.len() && !spec_is_protected(ts[i].key, extra)
                ==> spec_user_taints(ts, extra).contains(#[trigger] ts[i]),
{
    broadcast use vstd::seq_lib::group_filter_ensures;

    assert(spec_user_taints(ts, extra) == ts.filter(|t: TaintView| !spec_is_protected(t.key, extra)));
}

} // verus!
