use scenario_engine::codes::{Status, ViolationCode};
use scenario_engine::desync::{
    Device, Event, EventKind, Expectations, Scenario, SimError, eval_expectations, run_scenario,
    scenario_within_bounds, simulate,
};
use scenario_engine::fork::{
    AllowReplayGap, DetectionReference, EpochNode, ForkEvent, ForkEventKind, ForkExpectations,
    ForkScenario, Graph, ReconciledEpoch, default_detection_reference, default_edge_type, depth,
    evaluate as fork_evaluate, fault_delay_ms, Fault, simulate as fork_simulate,
};
use scenario_engine::scheduler::schedule;
use scenario_engine::storm::{Metrics as StormMetrics, Profile, Simulator, default_tolerance,
    profile_passes};

fn base_expectations() -> Expectations {
    Expectations {
        detected: true,
        max_detection_ms: 0,
        max_recovery_ms: 0,
        healing_required: false,
        residual_divergence_allowed: true,
        max_dr_version_delta: 100,
        max_clock_skew_ms: 1_000_000,
        allow_message_loss_rate_ppm: 1_000_000,
        allow_out_of_order_rate_ppm: 1_000_000,
        expected_error_categories: vec![],
        max_rollback_events: 100,
    }
}

fn device(id: &str, version: i64) -> Device {
    Device { device_id: id.to_string(), dr_version: version, clock_ms: 0, state_hash: None }
}

fn send(t: i64, msg: &str, from: &str, to: Vec<&str>) -> Event {
    Event {
        t,
        kind: EventKind::SendMsg {
            msg_id: msg.to_string(),
            from: from.to_string(),
            to: to.into_iter().map(|s| s.to_string()).collect(),
            dr_version: None,
            state_hash: None,
        },
    }
}

fn recv(t: i64, msg: &str, dev: &str) -> Event {
    Event {
        t,
        kind: EventKind::RecvMsg {
            msg_id: msg.to_string(),
            device: dev.to_string(),
            apply_dr_version: None,
            state_hash: None,
        },
    }
}

#[test]
fn scheduler_orders_by_time_then_declaration() {
    let times: Vec<i64> = vec![5, 1, 5, 0, 1];
    let order = schedule(&times);
    assert_eq!(order, vec![3, 1, 4, 0, 2]);
}

#[test]
fn scheduler_keeps_equal_times_stable() {
    let times: Vec<i64> = vec![7, 7, 7];
    let order = schedule(&times);
    assert_eq!(order, vec![0, 1, 2]);
}

#[test]
fn replaying_a_scenario_twice_yields_identical_verdicts() {
    let make = || Scenario {
        scenario_id: "twice".to_string(),
        tags: vec![],
        devices: vec![device("a", 1), device("b", 1)],
        timeline: vec![
            send(1, "m1", "a", vec!["b"]),
            recv(2, "m1", "b"),
            Event {
                t: 3,
                kind: EventKind::Resync {
                    device: "b".to_string(),
                    target_dr_version: 5,
                    state_hash: None,
                },
            },
        ],
        expectations: base_expectations(),
    };
    let v1 = run_scenario(&make());
    let v2 = run_scenario(&make());
    assert_eq!(v1.status, v2.status);
    assert_eq!(v1.failures, v2.failures);
    assert_eq!(v1.violation_codes, v2.violation_codes);
}

#[test]
fn duplicate_delivery_is_flagged_and_counted() {
    // Three devices, one send to two targets, two receipts of which one is
    // a duplicate: two delivery events, one duplicate flag, and no loss.
    let s = Scenario {
        scenario_id: "dup".to_string(),
        tags: vec![],
        devices: vec![device("d1", 1), device("d2", 1), device("d3", 1)],
        timeline: vec![
            send(1, "m1", "d1", vec!["d2", "d3"]),
            recv(2, "m1", "d2"),
            recv(3, "m1", "d2"),
        ],
        expectations: base_expectations(),
    };
    let res = simulate(&s).unwrap();
    assert!(res.errors.contains(&ViolationCode::DuplicateDelivery));
    assert_eq!(res.metrics.delivered_messages, 2);
    assert_eq!(res.metrics.expected_messages, 2);
    assert_eq!(res.metrics.lost_messages, 0);
    assert!(!res.errors.contains(&ViolationCode::MessageLoss));
}

#[test]
fn every_delivery_event_counts_even_past_all_targets() {
    // Two targets, three receipts: the event count runs past the target
    // count and no loss is derived from the deduplicated sets.
    let s = Scenario {
        scenario_id: "over".to_string(),
        tags: vec![],
        devices: vec![device("a", 1), device("b", 1), device("c", 1)],
        timeline: vec![
            send(1, "m1", "a", vec!["b", "c"]),
            recv(2, "m1", "b"),
            recv(3, "m1", "c"),
            recv(4, "m1", "c"),
        ],
        expectations: base_expectations(),
    };
    let res = simulate(&s).unwrap();
    assert!(res.errors.contains(&ViolationCode::DuplicateDelivery));
    assert_eq!(res.metrics.delivered_messages, 3);
    assert_eq!(res.metrics.expected_messages, 2);
    assert_eq!(res.metrics.lost_messages, 0);
    assert!(!res.errors.contains(&ViolationCode::MessageLoss));
}

#[test]
fn resync_rollback_raises_high_water_mark_by_the_delta() {
    let s = Scenario {
        scenario_id: "rollback".to_string(),
        tags: vec![],
        devices: vec![device("a", 10)],
        timeline: vec![Event {
            t: 1,
            kind: EventKind::Resync {
                device: "a".to_string(),
                target_dr_version: 4,
                state_hash: None,
            },
        }],
        expectations: base_expectations(),
    };
    let res = simulate(&s).unwrap();
    assert_eq!(res.metrics.max_rollback_events, 6);
    assert_eq!(res.metrics.recovery_attempts, 1);
}

#[test]
fn forward_resync_never_raises_the_rollback_mark() {
    let s = Scenario {
        scenario_id: "forward".to_string(),
        tags: vec![],
        devices: vec![device("a", 3)],
        timeline: vec![Event {
            t: 1,
            kind: EventKind::Resync {
                device: "a".to_string(),
                target_dr_version: 9,
                state_hash: None,
            },
        }],
        expectations: base_expectations(),
    };
    let res = simulate(&s).unwrap();
    assert_eq!(res.metrics.max_rollback_events, 0);
}

#[test]
fn backup_restore_rollback_is_a_violation() {
    let s = Scenario {
        scenario_id: "restore".to_string(),
        tags: vec![],
        devices: vec![device("a", 8)],
        timeline: vec![Event {
            t: 2,
            kind: EventKind::BackupRestore {
                device: "a".to_string(),
                dr_version: 3,
                state_hash: None,
            },
        }],
        expectations: base_expectations(),
    };
    let res = simulate(&s).unwrap();
    assert!(res.errors.contains(&ViolationCode::RollbackApplied));
    assert_eq!(res.metrics.max_rollback_events, 5);
}

#[test]
fn unknown_device_reference_is_a_fatal_corpus_error() {
    let s = Scenario {
        scenario_id: "unknown".to_string(),
        tags: vec![],
        devices: vec![device("a", 1)],
        timeline: vec![Event {
            t: 1,
            kind: EventKind::ClockSkew { device: "ghost".to_string(), delta_ms: 5 },
        }],
        expectations: base_expectations(),
    };
    match simulate(&s) {
        Err(SimError::UnknownDevice { device }) => assert_eq!(device, "ghost"),
        _ => panic!("expected a fatal corpus error"),
    }
}

#[test]
fn missing_expected_category_fails_the_verdict() {
    let mut exp = base_expectations();
    exp.detected = false;
    exp.expected_error_categories = vec![ViolationCode::ReplayInjected];
    let s = Scenario {
        scenario_id: "containment".to_string(),
        tags: vec![],
        devices: vec![device("a", 1), device("b", 1)],
        timeline: vec![send(1, "m1", "a", vec!["b"]), recv(2, "m1", "b")],
        expectations: exp,
    };
    let v = run_scenario(&s);
    assert_eq!(v.status, Status::Fail);
    assert!(v.failures.contains(&scenario_engine::desync::FailureReason::MissingErrorCategories));
}

#[test]
fn message_loss_is_flagged_when_a_target_never_receives() {
    let s = Scenario {
        scenario_id: "loss".to_string(),
        tags: vec![],
        devices: vec![device("a", 1), device("b", 1), device("c", 1)],
        timeline: vec![send(1, "m1", "a", vec!["b", "c"]), recv(2, "m1", "b")],
        expectations: base_expectations(),
    };
    let res = simulate(&s).unwrap();
    assert!(res.errors.contains(&ViolationCode::MessageLoss));
    assert_eq!(res.metrics.lost_messages, 1);
    assert_eq!(res.metrics.expected_messages, 2);
    // Loss rate 1/2 exceeds a 400000 ppm ceiling.
    let mut exp = base_expectations();
    exp.allow_message_loss_rate_ppm = 400_000;
    let (_status, failures) = eval_expectations(&exp, &res);
    assert!(failures.contains(&scenario_engine::desync::FailureReason::MessageLossRate));
}

#[test]
fn clock_skew_beyond_the_ceiling_is_flagged() {
    let mut exp = base_expectations();
    exp.max_clock_skew_ms = 10;
    let s = Scenario {
        scenario_id: "skew".to_string(),
        tags: vec![],
        devices: vec![device("a", 1), device("b", 1)],
        timeline: vec![Event {
            t: 1,
            kind: EventKind::ClockSkew { device: "a".to_string(), delta_ms: 50 },
        }],
        expectations: exp,
    };
    let res = simulate(&s).unwrap();
    assert!(res.errors.contains(&ViolationCode::ClockSkewViolation));
    assert_eq!(res.metrics.skew_violations, 1);
}

#[test]
fn empty_timeline_yields_a_clean_pass_when_nothing_is_expected() {
    let mut exp = base_expectations();
    exp.detected = false;
    let s = Scenario {
        scenario_id: "empty".to_string(),
        tags: vec![],
        devices: vec![device("a", 1)],
        timeline: vec![],
        expectations: exp,
    };
    let v = run_scenario(&s);
    assert_eq!(v.status, Status::Pass);
    assert!(v.violation_codes.is_empty());
}

fn fork_node(id: &str, epoch: i64, hash: &str, parent: Option<&str>, ts: i64) -> EpochNode {
    EpochNode {
        node_id: id.to_string(),
        epoch_id: epoch,
        eare_hash: hash.to_string(),
        previous_epoch_hash: None,
        membership_digest: None,
        parent_id: parent.map(|p| p.to_string()),
        issued_by: "ctrl".to_string(),
        timestamp_ms: ts,
    }
}

fn issue(t: i64, node: &str) -> ForkEvent {
    ForkEvent { t, kind: ForkEventKind::EpochIssue { node_id: node.to_string() }, faults: vec![] }
}

fn fork_expectations() -> ForkExpectations {
    ForkExpectations {
        detected: true,
        detection_reference: default_detection_reference(),
        max_detection_ms: 0,
        max_reconciliation_ms: 0,
        reconciled_epoch: ReconciledEpoch { epoch_id: None, node_id: None, eare_hash: None },
        allow_replay_gap: AllowReplayGap { max_messages: 0, max_ms: 0 },
        expected_error_categories: vec![],
        healing_required: false,
    }
}

#[test]
fn sibling_fork_is_detected_and_the_deterministic_winner_chosen() {
    // A two-branch, depth-two synthetic tree: one root, two siblings at
    // the same epoch with different hashes and equal timestamps.
    let s = ForkScenario {
        scenario_id: "fork".to_string(),
        group_context: None,
        graph: Graph {
            nodes: vec![
                fork_node("root", 1, "h-root", None, 100),
                fork_node("left", 2, "aaa", Some("root"), 200),
                fork_node("right", 2, "bbb", Some("root"), 200),
            ],
            edges: vec![],
        },
        event_stream: vec![issue(10, "root"), issue(20, "left"), issue(30, "right")],
        expectations: fork_expectations(),
    };
    let mut env = fork_simulate(&s).unwrap();
    assert!(env.detection);
    assert!(env.errors.contains(&ViolationCode::EpochForkDetected));
    // The fork counts as created at the first sibling's issuance (t = 20)
    // and as detected at the second's (t = 30): latency 10.
    assert_eq!(env.detection_ms, Some(10));
    // Equal depth, equal epoch, equal timestamp: the larger hash wins.
    assert_eq!(env.winning_node_id.as_deref(), Some("right"));
    assert_eq!(env.winning_hash.as_deref(), Some("bbb"));
    assert_eq!(env.winning_epoch_id, Some(2));
    fork_evaluate(&s, &mut env);
    assert_eq!(env.status, Status::Pass);
}

#[test]
fn chain_break_is_flagged_against_the_parents_actual_hash() {
    let mut bad = fork_node("child", 2, "h-child", Some("root"), 200);
    bad.previous_epoch_hash = Some("not-the-root-hash".to_string());
    let s = ForkScenario {
        scenario_id: "chain".to_string(),
        group_context: None,
        graph: Graph {
            nodes: vec![fork_node("root", 1, "h-root", None, 100), bad],
            edges: vec![],
        },
        event_stream: vec![issue(10, "root"), issue(20, "child")],
        expectations: fork_expectations(),
    };
    let env = fork_simulate(&s).unwrap();
    assert!(env.errors.contains(&ViolationCode::HashChainBreak));
}

#[test]
fn unknown_node_issue_is_a_fatal_corpus_error() {
    let s = ForkScenario {
        scenario_id: "ghostnode".to_string(),
        group_context: None,
        graph: Graph { nodes: vec![fork_node("root", 1, "h", None, 1)], edges: vec![] },
        event_stream: vec![issue(10, "phantom")],
        expectations: fork_expectations(),
    };
    assert!(fork_simulate(&s).is_err());
}

#[test]
fn depth_stops_at_a_cycle() {
    let nodes = vec![
        ("a".to_string(), fork_node("a", 1, "x", Some("b"), 1)),
        ("b".to_string(), fork_node("b", 2, "y", Some("a"), 2)),
    ];
    assert_eq!(depth(&"a".to_string(), &nodes), 2);
}

#[test]
fn fault_delay_takes_the_first_delay_fault() {
    let faults = vec![
        Fault::Other("noise".to_string()),
        Fault::DelayValidation(250),
        Fault::DelayValidation(9),
    ];
    assert_eq!(fault_delay_ms(&faults), 250);
    assert_eq!(default_edge_type(), "linear");
    assert_eq!(default_detection_reference(), DetectionReference::ForkCreated);
}

fn storm_profile(burst: u64, duration: u64, expected_ppm: u64, alert_ppm: u64, alert: bool) -> Profile {
    Profile {
        profile_id: "p".to_string(),
        burst_rate: burst,
        duration_ms: duration,
        expected_drop_ratio_ppm: expected_ppm,
        alert_threshold_ppm: alert_ppm,
        expected_alert: alert,
    }
}

#[test]
fn storm_conserves_every_offered_message() {
    let sim = Simulator::new(4, 3, Some(4));
    let p = storm_profile(10, 5, 620_000, 500_000, true);
    let m: StormMetrics = sim.simulate(&p);
    assert_eq!(m.total_offered, 50);
    assert_eq!(m.processed, 15);
    assert_eq!(m.dropped, 31);
    assert_eq!(m.pending_end, 4);
    assert_eq!(m.accepted + m.dropped, m.total_offered);
    assert!(m.dropped <= m.total_offered);
    assert_eq!(m.max_queue_depth, 4);
    assert_eq!(m.latency_integral, 20);
    assert!(m.alert_triggered);
    assert!(profile_passes(&m, &p, default_tolerance()));
}

#[test]
fn idle_storm_profile_drops_nothing() {
    let sim = Simulator::new(4, 3, None);
    let p = storm_profile(2, 10, 0, 500_000, false);
    let m = sim.simulate(&p);
    assert_eq!(m.dropped, 0);
    assert_eq!(m.accepted, m.total_offered);
    assert!(!m.alert_triggered);
    assert!(profile_passes(&m, &p, default_tolerance()));
}

#[test]
fn a_resync_that_shrinks_divergence_is_noted() {
    let s = Scenario {
        scenario_id: "shrink".to_string(),
        tags: vec![],
        devices: vec![device("a", 1), device("b", 5), device("c", 9)],
        timeline: vec![Event {
            t: 1,
            kind: EventKind::Resync {
                device: "c".to_string(),
                target_dr_version: 3,
                state_hash: None,
            },
        }],
        expectations: base_expectations(),
    };
    let res = simulate(&s).unwrap();
    assert_eq!(res.notes.len(), 1);
    assert_eq!(res.notes[0].message(), "resync on c reduced divergence");
    assert_eq!(res.metrics.recovery_attempts, 1);
    assert_eq!(res.metrics.successful_recoveries, 0);
    assert_eq!(res.metrics.failed_recoveries, 0);
}

#[test]
fn fork_time_is_the_earlier_siblings_issuance() {
    // Two conflicting siblings issued at t = 10 and t = 20: the fork was
    // created at 10 and detected at 20, so the fork-created latency is 10.
    let s = ForkScenario {
        scenario_id: "two-siblings".to_string(),
        group_context: None,
        graph: Graph {
            nodes: vec![
                fork_node("first", 5, "hash-one", None, 100),
                fork_node("second", 5, "hash-two", None, 200),
            ],
            edges: vec![],
        },
        event_stream: vec![issue(10, "first"), issue(20, "second")],
        expectations: fork_expectations(),
    };
    let env = fork_simulate(&s).unwrap();
    assert!(env.detection);
    assert_eq!(env.detection_ms, Some(10));
}

#[test]
fn permuting_equal_time_declarations_changes_nothing() {
    // Two declarations swap places but carry different times, and two
    // equal-time receipts keep their relative order: the verdicts agree.
    let devices = || vec![device("a", 1), device("b", 1), device("c", 1)];
    let s1 = Scenario {
        scenario_id: "perm".to_string(),
        tags: vec![],
        devices: devices(),
        timeline: vec![
            send(1, "m1", "a", vec!["b", "c"]),
            recv(2, "m1", "b"),
            recv(2, "m1", "c"),
            recv(3, "m1", "c"),
        ],
        expectations: base_expectations(),
    };
    let s2 = Scenario {
        scenario_id: "perm".to_string(),
        tags: vec![],
        devices: devices(),
        timeline: vec![
            recv(3, "m1", "c"),
            send(1, "m1", "a", vec!["b", "c"]),
            recv(2, "m1", "b"),
            recv(2, "m1", "c"),
        ],
        expectations: base_expectations(),
    };
    let v1 = run_scenario(&s1);
    let v2 = run_scenario(&s2);
    assert_eq!(v1.status, v2.status);
    assert_eq!(v1.failures, v2.failures);
    assert_eq!(v1.violation_codes, v2.violation_codes);
}

#[test]
fn bounds_checker_accepts_ordinary_and_rejects_oversized_values() {
    let good = Scenario {
        scenario_id: "ok".to_string(),
        tags: vec![],
        devices: vec![device("a", 1)],
        timeline: vec![send(1, "m1", "a", vec![])],
        expectations: base_expectations(),
    };
    assert!(scenario_within_bounds(&good));
    let mut bad = good;
    bad.timeline = vec![Event {
        t: 2_000_000_000_000,
        kind: EventKind::ClockSkew { device: "a".to_string(), delta_ms: 1 },
    }];
    assert!(!scenario_within_bounds(&bad));
}

#[test]
fn winner_fields_are_present_exactly_when_a_node_was_issued() {
    let no_issue = ForkScenario {
        scenario_id: "no-issue".to_string(),
        group_context: None,
        graph: Graph { nodes: vec![fork_node("root", 1, "h", None, 1)], edges: vec![] },
        event_stream: vec![ForkEvent {
            t: 1,
            kind: ForkEventKind::ReplayAttempt { count: Some(3) },
            faults: vec![],
        }],
        expectations: fork_expectations(),
    };
    let env = fork_simulate(&no_issue).unwrap();
    assert!(env.winning_node_id.is_none());
    assert!(env.winning_hash.is_none());
    assert!(env.winning_epoch_id.is_none());
    let one_issue = ForkScenario {
        scenario_id: "one-issue".to_string(),
        group_context: None,
        graph: Graph { nodes: vec![fork_node("root", 1, "h", None, 1)], edges: vec![] },
        event_stream: vec![issue(1, "root")],
        expectations: fork_expectations(),
    };
    let env = fork_simulate(&one_issue).unwrap();
    assert_eq!(env.winning_node_id.as_deref(), Some("root"));
    assert_eq!(env.winning_hash.as_deref(), Some("h"));
    assert_eq!(env.winning_epoch_id, Some(1));
}
