use node_taint_preserver::backoff::next_delay_secs;
use node_taint_preserver::model;
use node_taint_preserver::codec::configmap_name;
use node_taint_preserver::metrics::init_metrics;
use node_taint_preserver::model::{Error, NodeState, Taint};
use node_taint_preserver::policy::{filter_protected_taints, is_taint_protected};
use node_taint_preserver::reconcile::{
    merge_taints, phase, plan_apply, plan_cleanup, ApplyOutcome, CleanupOutcome, EventReason,
    Phase,
};
use node_taint_preserver::record::{decode_taints, encode_taints};

fn taint(key: &str, value: Option<&str>, effect: &str) -> Taint {
    Taint {
        key: key.to_string(),
        value: value.map(|v| v.to_string()),
        effect: effect.to_string(),
    }
}

#[test]
fn test_backoff_values() {
    assert_eq!(next_delay_secs(0), 2);
    assert_eq!(next_delay_secs(1), 4);
    assert_eq!(next_delay_secs(2), 8);
    assert_eq!(next_delay_secs(10), 2048);
    assert_eq!(next_delay_secs(11), 3600);
    assert_eq!(next_delay_secs(100), 3600);
    assert_eq!(next_delay_secs(u32::MAX), 3600);
}

#[test]
fn test_backoff_monotone() {
    let mut prev = 0u64;
    for attempt in 0..64 {
        let d = next_delay_secs(attempt);
        assert!(d >= prev);
        assert!(d <= 3600);
        prev = d;
    }
}

#[test]
fn test_configmap_name_digest() {
    // SHA-256 of the identity string, lowercase hex, behind a fixed prefix.
    assert_eq!(
        configmap_name("test-node"),
        "node-taints-562f2833d5898890becf31b0fd4999c05edee8adf0c0596ddd6289d14077f87b"
    );
    assert_eq!(
        configmap_name(""),
        "node-taints-e3b0c44298fc1c149afbf4c8996fb92427ae41e4649b934ca495991b7852b855"
    );
    assert_eq!(configmap_name("node-1").len(), 76);
}

#[test]
fn test_policy_literals_and_prefixes() {
    let extra: Vec<String> = Vec::new();
    assert!(is_taint_protected(&taint("CriticalAddonsOnly", None, "NoSchedule"), &extra));
    assert!(is_taint_protected(&taint("node.kubernetes.io/not-ready", None, "NoExecute"), &extra));
    assert!(is_taint_protected(
        &taint("node.cloudprovider.kubernetes.io/uninitialized", None, "NoSchedule"),
        &extra
    ));
    assert!(is_taint_protected(&taint("node-role.kubernetes.io/master", None, "NoSchedule"), &extra));
    assert!(!is_taint_protected(&taint("custom.example.com/x", None, "NoSchedule"), &extra));
    assert!(!is_taint_protected(&taint("CriticalAddonsOnly2", None, "NoSchedule"), &extra));
}

#[test]
fn test_policy_extra_prefixes() {
    let extra = vec!["corp.example.com/".to_string()];
    assert!(is_taint_protected(&taint("corp.example.com/owned", None, "NoSchedule"), &extra));
    assert!(!is_taint_protected(&taint("corp.example.org/owned", None, "NoSchedule"), &extra));
    let kept = filter_protected_taints(
        vec![
            taint("corp.example.com/owned", None, "NoSchedule"),
            taint("custom.example.com/kept", Some("v"), "NoExecute"),
        ],
        &extra,
    );
    assert_eq!(kept, vec![taint("custom.example.com/kept", Some("v"), "NoExecute")]);
}

#[test]
fn test_merge_first_seen_wins() {
    let live = vec![taint("a", Some("live"), "NoSchedule")];
    let cands = vec![
        taint("a", Some("stale"), "NoSchedule"),
        taint("b", Some("1"), "NoExecute"),
        taint("b", Some("2"), "NoExecute"),
    ];
    let (merged, restored) = merge_taints(&live, &cands);
    assert_eq!(
        merged,
        vec![taint("a", Some("live"), "NoSchedule"), taint("b", Some("1"), "NoExecute")]
    );
    assert_eq!(restored, vec!["b".to_string()]);
}

#[test]
fn test_encode_shapes() {
    assert_eq!(encode_taints(&vec![]), "[]");
    assert_eq!(
        encode_taints(&vec![taint("a", Some("v"), "NoSchedule")]),
        "[{\"key\":\"a\",\"value\":\"v\",\"effect\":\"NoSchedule\"}]"
    );
    assert_eq!(
        encode_taints(&vec![taint("a", None, "NoExecute"), taint("b", Some("x"), "NoSchedule")]),
        "[{\"key\":\"a\",\"effect\":\"NoExecute\"},{\"key\":\"b\",\"value\":\"x\",\"effect\":\"NoSchedule\"}]"
    );
    assert_eq!(
        encode_taints(&vec![taint("q\"\\", Some("line\nbell\u{7}"), "NoSchedule")]),
        "[{\"key\":\"q\\\"\\\\\",\"value\":\"line\\nbell\\u0007\",\"effect\":\"NoSchedule\"}]"
    );
}

#[test]
fn test_decode_roundtrip() {
    let cases: Vec<Vec<Taint>> = vec![
        vec![],
        vec![taint("a", Some("v"), "NoSchedule")],
        vec![taint("a", None, "NoExecute"), taint("b", Some("x"), "NoSchedule")],
        vec![taint("q\"\\", Some("line\nbell\u{7}"), "NoSchedule")],
        vec![taint("unicode.example.com/\u{00e9}", Some("\u{1f600}"), "NoSchedule")],
        vec![taint("tab\t", Some("cr\r"), "PreferNoSchedule")],
    ];
    for ts in cases {
        let json = encode_taints(&ts);
        let back = decode_taints(&json).expect("canonical encoding must decode");
        assert_eq!(back, ts);
    }
}

#[test]
fn test_decode_rejects_malformed() {
    let bad = vec![
        "",
        "[",
        "{}",
        "null",
        "[{]",
        "[{\"key\":\"a\"}]",
        "[{\"key\":\"a\",\"effect\":\"E\"}",
        "[{\"key\":\"a\",\"effect\":\"E\"}]x",
        "[{\"key\":\"a\",\"effect\":\"E\"},]",
        "[{\"key\":\"unterminated,\"effect\":\"E\"}]",
        "[{\"key\":\"a\",\"value\":null,\"effect\":\"E\"}]",
        "[{\"key\":\"bad\\escape\",\"effect\":\"E\"}]",
        "[{\"key\":\"bad\\u00zz\",\"effect\":\"E\"}]",
    ];
    for s in bad {
        match decode_taints(s) {
            Err(Error::Serialization) => {}
            other => panic!("{:?} should be a serialization error, got {:?}", s, other.is_ok()),
        }
    }
}

#[test]
fn test_decode_platform_member_order() {
    // The order the platform's own serializer writes, with the
    // platform-added timeAdded member and some whitespace.
    let json = " [ {\"effect\":\"NoExecute\" ,\n    \"key\":\"custom.example.com/test\",\n    \"timeAdded\":\"2024-01-01T00:00:00Z\",\n    \"value\":\"testvalue\"} ] ";
    let ts = decode_taints(json).unwrap();
    assert_eq!(ts, vec![taint("custom.example.com/test", Some("testvalue"), "NoExecute")]);
}

#[test]
fn test_decode_permissive_grammar() {
    // Empty array with whitespace.
    assert_eq!(decode_taints("  [ ]\t\n").unwrap(), Vec::<Taint>::new());
    // Unknown string-valued member is ignored.
    let ts = decode_taints("[{\"key\":\"a\",\"extra\":\"zzz\",\"effect\":\"E\"}]").unwrap();
    assert_eq!(ts, vec![taint("a", None, "E")]);
    // A repeated member overwrites the earlier one.
    let ts = decode_taints("[{\"key\":\"a\",\"key\":\"b\",\"effect\":\"E\"}]").unwrap();
    assert_eq!(ts, vec![taint("b", None, "E")]);
    // Backspace, form feed and solidus escapes; uppercase hex.
    let ts = decode_taints("[{\"key\":\"a\\b\\f\\/\",\"value\":\"\\u00C9\",\"effect\":\"E\"}]")
        .unwrap();
    assert_eq!(ts, vec![taint("a\u{8}\u{c}/", Some("\u{c9}"), "E")]);
    // Two elements with whitespace around the comma.
    let ts = decode_taints("[{\"key\":\"a\",\"effect\":\"E\"} , {\"key\":\"b\",\"effect\":\"F\"}]")
        .unwrap();
    assert_eq!(ts, vec![taint("a", None, "E"), taint("b", None, "F")]);
}

#[test]
fn test_decode_accepts_plain_escapes() {
    let ts = decode_taints("[{\"key\":\"a\\tb\",\"value\":\"q\\u0041\",\"effect\":\"E\"}]").unwrap();
    assert_eq!(ts, vec![taint("a\tb", Some("qA"), "E")]);
}

#[test]
fn test_phase_dispatch() {
    let mut node = NodeState {
        name: Some("n".to_string()),
        taints: vec![],
        has_restored_annotation: false,
        has_finalizer: false,
        deletion_timestamp: None,
    };
    assert_eq!(phase(&node), Phase::Apply);
    node.deletion_timestamp = Some(50);
    assert_eq!(phase(&node), Phase::Idle);
    node.has_finalizer = true;
    assert_eq!(phase(&node), Phase::Cleanup);
}

#[test]
fn test_cleanup_overdue_ceiling() {
    let extra: Vec<String> = Vec::new();
    let node = NodeState {
        name: Some("n".to_string()),
        taints: vec![taint("custom.example.com/x", None, "NoSchedule")],
        has_restored_annotation: false,
        has_finalizer: true,
        deletion_timestamp: Some(1000),
    };
    // Exactly at the ceiling: still writes.
    match plan_cleanup(&node, 1000 + 3600, &extra).unwrap() {
        CleanupOutcome::WriteAndRelease(rp) => {
            assert!(rp.taints_json.is_some());
            assert_eq!(rp.node_name, "n");
            assert_eq!(rp.record_name, configmap_name("n"));
        }
        CleanupOutcome::ForcedRelease => panic!("not overdue yet"),
    }
    // Past the ceiling: gives up without a write.
    match plan_cleanup(&node, 1000 + 3601, &extra).unwrap() {
        CleanupOutcome::ForcedRelease => {}
        CleanupOutcome::WriteAndRelease(_) => panic!("overdue cleanup must not write"),
    }
    // A deletion timestamp in the future has not elapsed.
    match plan_cleanup(&node, 999, &extra).unwrap() {
        CleanupOutcome::WriteAndRelease(_) => {}
        CleanupOutcome::ForcedRelease => panic!("future deletion is not overdue"),
    }
}

#[test]
fn test_cleanup_missing_name() {
    let extra: Vec<String> = Vec::new();
    let node = NodeState {
        name: None,
        taints: vec![],
        has_restored_annotation: false,
        has_finalizer: true,
        deletion_timestamp: Some(0),
    };
    assert!(matches!(plan_cleanup(&node, 10, &extra), Err(Error::MissingNodeName)));
}

#[test]
fn test_event_truncation() {
    let extra: Vec<String> = Vec::new();
    let node = NodeState {
        name: Some("n".to_string()),
        taints: vec![],
        has_restored_annotation: false,
        has_finalizer: false,
        deletion_timestamp: None,
    };
    let record: Vec<Taint> = (0..7)
        .map(|i| taint(&format!("custom.example.com/k{}", i), None, "NoSchedule"))
        .collect();
    match plan_apply(&node, Some(&record), &extra) {
        ApplyOutcome::Patch(p) => {
            assert_eq!(p.event.reason, EventReason::TaintsRestored);
            assert_eq!(p.event.total_restored, 7);
            assert!(p.event.truncated);
            assert_eq!(p.event.keys_listed.len(), 5);
            assert_eq!(p.event.keys_listed[0], "custom.example.com/k0");
            assert_eq!(p.event.keys_listed[4], "custom.example.com/k4");
        }
        ApplyOutcome::AlreadyRestored => panic!("node must be patched"),
    }
    match plan_apply(&node, None, &extra) {
        ApplyOutcome::Patch(p) => {
            assert_eq!(p.event.reason, EventReason::NoTaintsToRestore);
            assert_eq!(p.event.total_restored, 0);
            assert!(!p.event.truncated);
        }
        ApplyOutcome::AlreadyRestored => panic!("node must be patched"),
    }
}

#[test]
fn test_metrics_counters() {
    let mut m = init_metrics();
    assert_eq!(m.taints_restored_total, 0);
    assert_eq!(m.reconciliations_apply, 0);
    assert_eq!(m.reconciliations_cleanup, 0);
    assert_eq!(m.errors_total, 0);
    m.record_apply();
    m.record_apply();
    m.record_cleanup();
    m.record_restored(3);
    m.record_error();
    assert_eq!(m.reconciliations_apply, 2);
    assert_eq!(m.reconciliations_cleanup, 1);
    assert_eq!(m.taints_restored_total, 3);
    assert_eq!(m.errors_total, 1);
    m.taints_restored_total = u64::MAX;
    m.record_restored(10);
    assert_eq!(m.taints_restored_total, u64::MAX);
}

#[test]
fn test_interface_constants() {
    assert_eq!(model::finalizer_name(), "nodetaintpreserver.example.com/finalizer");
    assert_eq!(model::restored_annotation_key(), "nodetaintpreserver.example.com/taints-restored");
    assert_eq!(model::restored_annotation_value(), "1");
    assert_eq!(model::json_storage_key(), "preserved_taints_json");
    assert_eq!(model::record_node_annotation_key(), "nodetaintpreserver.example.com/node-name");
    assert_eq!(model::service_name(), "node-taint-preserver");
}
