use node_taint_preserver::model::{NodeState, Taint};
use node_taint_preserver::reconcile::{
    plan_apply, plan_cleanup, reconcile_apply, ApplyOutcome, CleanupOutcome,
};

fn taint(key: &str, value: Option<&str>, effect: &str) -> Taint {
    Taint {
        key: key.to_string(),
        value: value.map(|v| v.to_string()),
        effect: effect.to_string(),
    }
}

fn live_node(name: &str, taints: Vec<Taint>) -> NodeState {
    NodeState {
        name: Some(name.to_string()),
        taints,
        has_restored_annotation: false,
        has_finalizer: true,
        deletion_timestamp: None,
    }
}

fn terminating_node(name: &str, taints: Vec<Taint>, deleted_at: i64) -> NodeState {
    NodeState {
        name: Some(name.to_string()),
        taints,
        has_restored_annotation: false,
        has_finalizer: true,
        deletion_timestamp: Some(deleted_at),
    }
}

/// Runs the Cleanup phase and hands back what the written record would hold.
fn cleanup_record_json(node: &NodeState, now: i64, extra: &Vec<String>) -> Option<String> {
    match plan_cleanup(node, now, extra).unwrap() {
        CleanupOutcome::WriteAndRelease(rp) => rp.taints_json,
        CleanupOutcome::ForcedRelease => panic!("cleanup should not be overdue"),
    }
}

#[test]
fn test_restore_on_cycle() {
    let extra: Vec<String> = Vec::new();
    let name = "test-restore-node";
    let custom = taint("custom.example.com/test", Some("testvalue"), "NoSchedule");

    // Node carries a custom taint, then is deleted: Cleanup persists it.
    let old = terminating_node(name, vec![custom.clone()], 100);
    let json = cleanup_record_json(&old, 110, &extra);
    assert!(json.is_some());

    // The node is recreated bare; Apply restores the taint.
    let fresh = live_node(name, vec![]);
    match reconcile_apply(&fresh, json.as_ref(), &extra).unwrap() {
        ApplyOutcome::Patch(p) => {
            assert_eq!(p.merged_taints, vec![custom]);
            assert_eq!(p.restored_keys, vec!["custom.example.com/test".to_string()]);
        }
        ApplyOutcome::AlreadyRestored => panic!("fresh node must be patched"),
    }
}

#[test]
fn test_no_overwrite() {
    let extra: Vec<String> = Vec::new();
    let name = "test-nooverwrite-node";
    let key = "custom.example.com/overwrite";
    let original = taint(key, Some("original"), "NoSchedule");

    let old = terminating_node(name, vec![original], 100);
    let json = cleanup_record_json(&old, 110, &extra);

    // Recreated with a different value under the same key: the live value wins.
    let new = taint(key, Some("new"), "NoSchedule");
    let fresh = live_node(name, vec![new.clone()]);
    match reconcile_apply(&fresh, json.as_ref(), &extra).unwrap() {
        ApplyOutcome::Patch(p) => {
            assert_eq!(p.merged_taints, vec![new]);
            assert!(p.restored_keys.is_empty());
        }
        ApplyOutcome::AlreadyRestored => panic!("fresh node must be patched"),
    }
}

#[test]
fn test_respect_deletions() {
    let extra: Vec<String> = Vec::new();
    let name = "test-deletions-node";
    let key = "custom.example.com/delete";
    let t = taint(key, Some("value"), "NoSchedule");

    // First lifecycle persists the taint.
    let first = terminating_node(name, vec![t], 100);
    let _ = cleanup_record_json(&first, 110, &extra);

    // The operator removes the taint; the next Cleanup sees none, and its
    // record replaces the earlier one.
    let second = terminating_node(name, vec![], 200);
    let json = cleanup_record_json(&second, 210, &extra);
    assert!(json.is_none(), "an empty snapshot stores no taint list");

    let fresh = live_node(name, vec![]);
    match reconcile_apply(&fresh, json.as_ref(), &extra).unwrap() {
        ApplyOutcome::Patch(p) => {
            let has_taint = p.merged_taints.iter().any(|x| x.key == key);
            assert!(!has_taint, "Taint should not be restored after deletion");
        }
        ApplyOutcome::AlreadyRestored => panic!("fresh node must be patched"),
    }
}

#[test]
fn test_no_system_taints_restored() {
    let extra: Vec<String> = Vec::new();
    let name = "test-system-node";
    let system = taint("node.kubernetes.io/not-ready", None, "NoSchedule");
    let custom = taint("custom.example.com/test", Some("value"), "NoSchedule");

    let old = terminating_node(name, vec![system.clone(), custom.clone()], 100);
    let json = cleanup_record_json(&old, 110, &extra);

    let fresh = live_node(name, vec![]);
    match reconcile_apply(&fresh, json.as_ref(), &extra).unwrap() {
        ApplyOutcome::Patch(p) => {
            assert_eq!(p.merged_taints, vec![custom]);
            let has_system = p.merged_taints.iter().any(|x| x.key == system.key);
            assert!(!has_system, "System taint should not be restored");
        }
        ApplyOutcome::AlreadyRestored => panic!("fresh node must be patched"),
    }
}

#[test]
fn test_empty_taints_roundtrip() {
    let extra: Vec<String> = Vec::new();
    let name = "test-empty-node";

    let old = terminating_node(name, vec![], 100);
    let json = cleanup_record_json(&old, 110, &extra);
    assert!(json.is_none(), "zero taints are written as an absent list");

    let fresh = live_node(name, vec![]);
    match reconcile_apply(&fresh, json.as_ref(), &extra).unwrap() {
        ApplyOutcome::Patch(p) => {
            assert!(p.merged_taints.is_empty(), "Node should have no taints");
            assert!(p.restored_keys.is_empty());
        }
        ApplyOutcome::AlreadyRestored => panic!("fresh node must be patched"),
    }
}

#[test]
fn test_idempotence() {
    let extra: Vec<String> = Vec::new();
    let name = "test-idempotent-node";
    let t = taint("custom.example.com/idempotent", Some("value"), "NoSchedule");

    let old = terminating_node(name, vec![t.clone()], 100);
    let json = cleanup_record_json(&old, 110, &extra);

    let fresh = live_node(name, vec![]);
    let patched = match reconcile_apply(&fresh, json.as_ref(), &extra).unwrap() {
        ApplyOutcome::Patch(p) => p,
        ApplyOutcome::AlreadyRestored => panic!("fresh node must be patched"),
    };
    assert_eq!(patched.merged_taints, vec![t]);

    // The patch writes the idempotence annotation under this key.
    assert_eq!(
        node_taint_preserver::model::restored_annotation_key(),
        "nodetaintpreserver.example.com/taints-restored",
        "Idempotence annotation should be present"
    );

    // The state after the patch: annotation set, merged taints live.
    let after = NodeState {
        name: Some(name.to_string()),
        taints: patched.merged_taints,
        has_restored_annotation: true,
        has_finalizer: true,
        deletion_timestamp: None,
    };
    match reconcile_apply(&after, json.as_ref(), &extra).unwrap() {
        ApplyOutcome::AlreadyRestored => {}
        ApplyOutcome::Patch(_) => panic!("second Apply must be a pure no-op"),
    }
    // A second Apply is a no-op even with no record at hand.
    match plan_apply(&after, None, &extra) {
        ApplyOutcome::AlreadyRestored => {}
        ApplyOutcome::Patch(_) => panic!("second Apply must be a pure no-op"),
    }
}

#[test]
fn test_merge_scenario_live_wins() {
    // Live [{A,"1",NoSchedule}] + record [{A,"2",NoSchedule},{B,"1",NoExecute}]
    // => merged [{A,"1",NoSchedule},{B,"1",NoExecute}], restored ["B"].
    let extra: Vec<String> = Vec::new();
    let live = live_node("scenario-node", vec![taint("A", Some("1"), "NoSchedule")]);
    let record = vec![
        taint("A", Some("2"), "NoSchedule"),
        taint("B", Some("1"), "NoExecute"),
    ];
    match plan_apply(&live, Some(&record), &extra) {
        ApplyOutcome::Patch(p) => {
            assert_eq!(
                p.merged_taints,
                vec![taint("A", Some("1"), "NoSchedule"), taint("B", Some("1"), "NoExecute")]
            );
            assert_eq!(p.restored_keys, vec!["B".to_string()]);
        }
        ApplyOutcome::AlreadyRestored => panic!("node must be patched"),
    }
}

#[test]
fn test_cleanup_scenario_filters_system_taint() {
    // Live {node.kubernetes.io/unreachable,-,NoExecute} and
    // {custom.example.com/x,"v",NoSchedule}: only the custom one is persisted.
    let extra: Vec<String> = Vec::new();
    let node = terminating_node(
        "scenario-cleanup-node",
        vec![
            taint("node.kubernetes.io/unreachable", None, "NoExecute"),
            taint("custom.example.com/x", Some("v"), "NoSchedule"),
        ],
        100,
    );
    let json = cleanup_record_json(&node, 110, &extra).expect("one user taint is persisted");
    let decoded = node_taint_preserver::record::decode_taints(&json).unwrap();
    assert_eq!(decoded, vec![taint("custom.example.com/x", Some("v"), "NoSchedule")]);
}
