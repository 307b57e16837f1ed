use base64::Engine as _;
use hkdf::Hkdf;
use sha2::{Digest, Sha256};

use scenario_engine::canon::canonical_key_order;
use scenario_engine::codes::{Status, ViolationCode};
use scenario_engine::crosslang::{CrossLanguageValidator, LanguageResult};
use scenario_engine::eare::{
    Corruption, CorruptionKind, EareExpectations, EareGroupContext, EareNode, EareNote,
    EareScenario, evaluate as eare_evaluate, simulate as eare_simulate, EareFailure,
};
use scenario_engine::fuzz::{base64_len, expected_success, required_fields, validate_handshake,
    Mutation, MutationOp, MutationOutcome, Seed};
use scenario_engine::handshake::{generate_handshake_flow, generate_random_base64,
    validate_handshake_derivation, HandshakeError};
use scenario_engine::replay::{
    AntiPoisoningRule, AttackVector, EareRecord, EpochEntry, FieldCheck, ReplayValue,
    RuleCondition, StormProfileVec, count_violations, detect_replay, fork_by_fanout, get_int,
    record_valid, rule_enforced, storm_estimate_valid,
};
use scenario_engine::schema::{
    CborValidator, FieldValue, MessageType, SchemaValidator,
};
use scenario_engine::sfu::{
    Participant, SfuContext, SfuEvent, SfuEventKind, SfuExpectations, SfuScenario,
    evaluate as sfu_evaluate, simulate as sfu_simulate, SfuFailure,
};
use scenario_engine::sync::{MultiDeviceSyncValidator, SyncScenarioData, SyncStep, SyncValue};

fn field(name: &str, v: FieldValue) -> (String, FieldValue) {
    (name.to_string(), v)
}

fn b64_of(bytes: &[u8]) -> String {
    base64::engine::general_purpose::STANDARD.encode(bytes)
}

fn complete_message() -> Vec<(String, FieldValue)> {
    vec![
        field("type", FieldValue::Str("HANDSHAKE_COMPLETE".to_string())),
        field("version", FieldValue::Number),
        field("session_id", FieldValue::Str(b64_of(&[7u8; 32]))),
        field("handshake_hash", FieldValue::Str(b64_of(&[9u8; 32]))),
        field("timestamp", FieldValue::Number),
    ]
}

#[test]
fn a_complete_message_validates_cleanly() {
    let v = CborValidator::new();
    let r = v.validate_message(&complete_message());
    assert!(r.valid, "errors: {:?}", r.errors);
    assert_eq!(r.message_type.as_deref(), Some("HANDSHAKE_COMPLETE"));
    assert_eq!(r.tag, Some(0xD3));
}

#[test]
fn a_wrong_sized_key_names_both_sizes() {
    let v = CborValidator::new();
    let mut m = complete_message();
    m[2].1 = FieldValue::Str(b64_of(&[7u8; 31]));
    let r = v.validate_message(&m);
    assert!(!r.valid);
    assert!(r.errors.contains(&"Field session_id wrong size: 31 != 32".to_string()));
}

#[test]
fn garbage_base64_is_rejected() {
    let v = CborValidator::new();
    let mut m = complete_message();
    m[3].1 = FieldValue::Str("!!!not-base64!!!".to_string());
    let r = v.validate_message(&m);
    assert!(r.errors.contains(&"Field handshake_hash must be valid base64".to_string()));
}

#[test]
fn missing_type_and_unknown_type_are_distinct_errors() {
    let v = CborValidator::new();
    let r = v.validate_message(&vec![field("version", FieldValue::Number)]);
    assert_eq!(r.errors, vec!["Missing 'type' field".to_string()]);
    let r2 = v.validate_message(&vec![field("type", FieldValue::Str("NOPE".to_string()))]);
    assert_eq!(r2.errors, vec!["Unknown message type: NOPE".to_string()]);
    assert_eq!(MessageType::from_str("HANDSHAKE_INIT"), Some(MessageType::HandshakeInit));
    assert_eq!(MessageType::HandshakeResponse.as_str(), "HANDSHAKE_RESPONSE");
    assert_eq!(MessageType::HandshakeResponse.tag(), 0xD2);
}

#[test]
fn missing_required_fields_are_each_named() {
    let v = CborValidator::new();
    let m = vec![field("type", FieldValue::Str("HANDSHAKE_COMPLETE".to_string()))];
    let r = v.validate_message(&m);
    assert!(r.errors.contains(&"Missing required field: session_id".to_string()));
    assert!(r.errors.contains(&"Missing required field: timestamp".to_string()));
}

#[test]
fn schema_validator_accepts_a_full_init_message() {
    let v = SchemaValidator::new();
    let m = vec![
        field("type", FieldValue::Str("HANDSHAKE_INIT".to_string())),
        field("version", FieldValue::Number),
        field("client_id", FieldValue::Str(b64_of(&[1u8; 32]))),
        field("x25519_public_key", FieldValue::Str(b64_of(&[2u8; 32]))),
        field("kyber_public_key", FieldValue::Str(b64_of(&[3u8; 1568]))),
        field("timestamp", FieldValue::Number),
        field("nonce", FieldValue::Str(b64_of(&[4u8; 16]))),
    ];
    let r = v.validate_message(&m);
    assert!(r.valid, "errors: {:?}", r.errors);
    assert_eq!(r.schema_version, "0.9");
    assert!(r.warnings.is_empty());
}

#[test]
fn schema_validator_warns_about_undeclared_fields() {
    let v = SchemaValidator::new();
    let mut m = complete_message();
    m.push(field("surprise", FieldValue::Number));
    let r = v.validate_message(&m);
    assert!(r.warnings.contains(&"Unknown field: surprise".to_string()));
}

#[test]
fn schema_validator_rejects_a_wrong_type_field() {
    let v = SchemaValidator::new();
    let mut m = complete_message();
    m[1].1 = FieldValue::Str("one".to_string());
    let r = v.validate_message(&m);
    assert!(r.errors.contains(&"Field version must be integer".to_string()));
}

#[test]
fn sync_scenario_with_three_good_steps_is_valid() {
    let step = || -> SyncStep {
        SyncStep::ObjectStep(vec![
            ("step".to_string(), SyncValue::OtherVal),
            ("type".to_string(), SyncValue::OtherVal),
            ("from".to_string(), SyncValue::OtherVal),
            ("to".to_string(), SyncValue::OtherVal),
            (
                "message".to_string(),
                SyncValue::ObjectVal(vec![
                    ("type".to_string(), SyncValue::OtherVal),
                    ("version".to_string(), SyncValue::OtherVal),
                    ("timestamp".to_string(), SyncValue::OtherVal),
                    ("nonce".to_string(), SyncValue::Str("AAAAAAAAAAAAAAAAAAAAAA==".to_string())),
                ]),
            ),
        ])
    };
    let v = MultiDeviceSyncValidator::new();
    let data = SyncScenarioData { steps: Some(vec![step(), step(), step()]) };
    let r = v.validate_scenario("device_addition", &data);
    assert!(r.valid, "errors: {:?}", r.errors);
    assert_eq!(r.scenario, "device_addition");
}

#[test]
fn sync_scenario_errors_carry_step_numbers() {
    let v = MultiDeviceSyncValidator::new();
    let data = SyncScenarioData {
        steps: Some(vec![SyncStep::NotObject, SyncStep::ObjectStep(vec![])]),
    };
    let r = v.validate_scenario("sync_conflict", &data);
    assert!(!r.valid);
    assert!(r.errors.contains(&"Expected at least 3 steps, got 2".to_string()));
    assert!(r.errors.contains(&"Step 1: Must be object".to_string()));
    assert!(r.errors.contains(&"Step 2: Missing field from".to_string()));
    assert!(r.errors.contains(&"Step 2: Missing message".to_string()));
}

#[test]
fn sync_scenario_checks_nonce_length() {
    let v = MultiDeviceSyncValidator::new();
    let step = SyncStep::ObjectStep(vec![
        ("step".to_string(), SyncValue::OtherVal),
        ("type".to_string(), SyncValue::OtherVal),
        ("from".to_string(), SyncValue::OtherVal),
        ("to".to_string(), SyncValue::OtherVal),
        (
            "message".to_string(),
            SyncValue::ObjectVal(vec![
                ("type".to_string(), SyncValue::OtherVal),
                ("version".to_string(), SyncValue::OtherVal),
                ("timestamp".to_string(), SyncValue::OtherVal),
                ("nonce".to_string(), SyncValue::Str("short".to_string())),
            ]),
        ),
    ]);
    let data = SyncScenarioData { steps: Some(vec![step]) };
    let r = v.validate_scenario("backup_restore", &data);
    assert!(r.errors.contains(&"Step 1: Invalid nonce length".to_string()));
}

#[test]
fn missing_steps_array_is_an_error() {
    let v = MultiDeviceSyncValidator::new();
    let r = v.validate_scenario("device_removal", &SyncScenarioData { steps: None });
    assert_eq!(r.errors, vec!["Missing or invalid steps array".to_string()]);
}

fn eare_node(id: &str, epoch: i64, hash: &str, prev: &str) -> EareNode {
    EareNode {
        node_id: id.to_string(),
        epoch_id: epoch,
        eare_hash: hash.to_string(),
        issued_by: "ctrl".to_string(),
        previous_epoch_hash: prev.to_string(),
        membership_digest: "d".to_string(),
    }
}

fn eare_scenario(nodes: Vec<EareNode>, corruptions: Vec<Corruption>) -> EareScenario {
    EareScenario {
        scenario_id: "eare".to_string(),
        tags: vec![],
        group_context: EareGroupContext {
            group_id: "g".to_string(),
            membership_version: 1,
            epoch_size_limit: 10,
        },
        nodes,
        corruptions,
        expectations: EareExpectations {
            should_detect: true,
            expected_errors: vec![],
            max_detection_ms: 0,
            allow_partial_accept: true,
            residual_divergence_allowed: true,
        },
    }
}

#[test]
fn a_broken_chain_is_rejected_at_the_break() {
    let s = eare_scenario(
        vec![
            eare_node("n1", 1, "h1", ""),
            eare_node("n2", 2, "h2", "h1"),
            eare_node("n3", 3, "h3", "WRONG"),
        ],
        vec![],
    );
    let r = eare_simulate(&s);
    assert!(r.errors.contains(&ViolationCode::HashChainBreak));
    assert_eq!(r.metrics.accepted_nodes, 2);
    assert_eq!(r.metrics.rejected_nodes, 1);
    assert_eq!(r.metrics.hash_chain_breaks, 1);
    assert_eq!(r.detection_ms, Some(0));
}

#[test]
fn eare_nodes_are_ordered_by_epoch_id_not_declaration() {
    // Declared out of order; ordered by epoch the chain is intact.
    let s = eare_scenario(
        vec![
            eare_node("n2", 2, "h2", "h1"),
            eare_node("n1", 1, "h1", ""),
        ],
        vec![],
    );
    let r = eare_simulate(&s);
    assert!(!r.errors.contains(&ViolationCode::HashChainBreak));
    assert_eq!(r.metrics.accepted_nodes, 2);
}

#[test]
fn corruptions_map_to_fixed_codes_and_unknown_kinds_to_notes() {
    let s = eare_scenario(
        vec![eare_node("n1", 1, "h1", "")],
        vec![
            Corruption {
                kind: CorruptionKind::InvalidSignature,
                target_node: Some("n1".to_string()),
                reason: None,
            },
            Corruption {
                kind: CorruptionKind::TamperPayload,
                target_node: None,
                reason: None,
            },
            Corruption {
                kind: CorruptionKind::Other("COSMIC_RAYS".to_string()),
                target_node: Some("n1".to_string()),
                reason: None,
            },
        ],
    );
    let r = eare_simulate(&s);
    assert!(r.errors.contains(&ViolationCode::InvalidSignature));
    assert!(r.errors.contains(&ViolationCode::PayloadTampered));
    assert_eq!(r.notes.len(), 1);
    match &r.notes[0] {
        EareNote::UnhandledCorruption(name) => assert_eq!(name, "COSMIC_RAYS"),
    }
    assert_eq!(r.notes[0].message(), "unhandled corruption COSMIC_RAYS");
    let (status, failures) = eare_evaluate(&s.expectations, &r);
    assert_eq!(status, Status::Pass);
    assert!(failures.is_empty());
}

#[test]
fn eare_missing_expected_errors_fail_evaluation() {
    let mut s = eare_scenario(vec![eare_node("n1", 1, "h1", "")], vec![]);
    s.expectations.should_detect = false;
    s.expectations.expected_errors = vec![ViolationCode::TruncatedEare];
    let r = eare_simulate(&s);
    let (status, failures) = eare_evaluate(&s.expectations, &r);
    assert_eq!(status, Status::Fail);
    assert!(failures.contains(&EareFailure::MissingExpectedErrors));
}

fn sfu_scenario(timeline: Vec<SfuEvent>) -> SfuScenario {
    SfuScenario {
        scenario_id: "sfu".to_string(),
        tags: vec![],
        sfu_context: SfuContext {
            sfu_id: "sfu1".to_string(),
            room_id: "room".to_string(),
            expected_participants: vec!["alice".to_string()],
            auth_mode: "token".to_string(),
        },
        participants: vec![Participant {
            id: "alice".to_string(),
            role: "member".to_string(),
            authz_tokens: vec!["tok".to_string()],
            tracks: vec![],
        }],
        timeline,
        expectations: SfuExpectations {
            should_detect: true,
            expected_errors: vec![],
            max_detection_ms: 0,
            allow_partial_accept: true,
            residual_routing_allowed: true,
            max_hijacked_tracks: 0,
            max_unauthorized_tracks: 10,
            max_key_leak_attempts: 10,
            max_extra_latency_ms: 1_000_000,
            max_false_positive_blocks: 0,
            max_false_negative_leaks: 0,
        },
    }
}

#[test]
fn unauthorized_publish_is_flagged_and_counted() {
    let s = sfu_scenario(vec![SfuEvent {
        t: 5,
        kind: SfuEventKind::Publish {
            participant: Some("mallory".to_string()),
            track_id: Some("t1".to_string()),
            layers: None,
        },
    }]);
    let r = sfu_simulate(&s);
    assert!(r.errors.contains(&ViolationCode::UnauthorizedSubscribe));
    assert_eq!(r.metrics.unauthorized_tracks, 1);
    assert_eq!(r.metrics.accepted_tracks, 0);
    assert_eq!(r.detection_ms, Some(5));
}

#[test]
fn an_authorized_join_and_publish_route_the_track() {
    let s = sfu_scenario(vec![
        SfuEvent {
            t: 1,
            kind: SfuEventKind::Join {
                participant: Some("alice".to_string()),
                token: Some("tok".to_string()),
            },
        },
        SfuEvent {
            t: 2,
            kind: SfuEventKind::Publish {
                participant: Some("alice".to_string()),
                track_id: Some("t1".to_string()),
                layers: Some(vec!["low".to_string()]),
            },
        },
        SfuEvent {
            t: 3,
            kind: SfuEventKind::SimulcastSpoof {
                track_id: Some("t1".to_string()),
                requested_layers: Some(vec!["ultra".to_string()]),
            },
        },
    ]);
    let r = sfu_simulate(&s);
    assert_eq!(r.metrics.accepted_tracks, 1);
    assert!(r.errors.contains(&ViolationCode::SimulcastSpoof));
    assert_eq!(r.metrics.simulcast_spoofs, 1);
}

#[test]
fn sfu_missing_expected_errors_fail_evaluation() {
    let mut s = sfu_scenario(vec![]);
    s.expectations.should_detect = false;
    s.expectations.expected_errors = vec![ViolationCode::KeyLeakAttempt];
    let r = sfu_simulate(&s);
    let (status, failures) = sfu_evaluate(&s.expectations, &r);
    assert_eq!(status, Status::Fail);
    assert!(failures.contains(&SfuFailure::MissingExpectedErrors));
}

#[test]
fn stolen_keys_raise_their_own_code_without_routing_changes() {
    let s = sfu_scenario(vec![
        SfuEvent { t: 1, kind: SfuEventKind::StealKey },
        SfuEvent { t: 2, kind: SfuEventKind::StaleKeyReuse },
    ]);
    let r = sfu_simulate(&s);
    assert!(r.errors.contains(&ViolationCode::KeyLeakAttempt));
    assert!(r.errors.contains(&ViolationCode::StaleKeyReuse));
    assert_eq!(r.metrics.key_leak_attempts, 2);
    assert_eq!(r.metrics.accepted_tracks, 0);
}

#[test]
fn replay_window_detection_finds_a_duplicate_inside_the_window() {
    assert!(detect_replay(&vec![1, 2, 3, 2], 5));
    assert!(!detect_replay(&vec![1, 2, 3], 5));
    // The duplicate falls outside the window once enough time passed.
    assert!(!detect_replay(&vec![1, 100, 1], 5));
}

#[test]
fn fork_by_fanout_needs_two_children_of_one_parent() {
    let timeline = vec![
        EpochEntry { epoch_id: "e1".to_string(), parent: None },
        EpochEntry { epoch_id: "e2".to_string(), parent: Some("e1".to_string()) },
        EpochEntry { epoch_id: "e3".to_string(), parent: Some("e1".to_string()) },
    ];
    assert!(fork_by_fanout(&timeline));
    assert!(!fork_by_fanout(&timeline[..2].to_vec()));
}

#[test]
fn malformed_records_check_required_fields_and_hash_length() {
    let good = EareRecord {
        record_id: "r1".to_string(),
        fields: vec![
            ("sig".to_string(), ReplayValue::Str("x".to_string())),
            ("hash".to_string(), ReplayValue::Str("ab".repeat(32))),
        ],
        required_fields: Some(vec!["sig".to_string(), "hash".to_string()]),
        hash_bytes: None,
        min_hash_bytes: None,
        expected_valid: true,
    };
    assert!(record_valid(&good));
    let mut short = good;
    short.fields[1].1 = ReplayValue::Str("abcd".to_string());
    assert!(!record_valid(&short));
}

#[test]
fn anti_poisoning_rules_check_their_conditions() {
    let drift_ok = AntiPoisoningRule {
        rule_id: "drift".to_string(),
        condition: RuleCondition::MaxDrift(5),
        sample_message: vec![
            ("nonce_counter".to_string(), ReplayValue::Num(12)),
            ("last_nonce_counter".to_string(), ReplayValue::Num(10)),
        ],
        expected_enforced: true,
    };
    assert!(rule_enforced(&drift_ok));
    let binding_broken = AntiPoisoningRule {
        rule_id: "bind".to_string(),
        condition: RuleCondition::RequireBinding,
        sample_message: vec![
            ("sender_id".to_string(), ReplayValue::Str("a".to_string())),
            ("aad_sender".to_string(), ReplayValue::Str("b".to_string())),
        ],
        expected_enforced: false,
    };
    assert!(!rule_enforced(&binding_broken));
    assert_eq!(get_int(Some(&ReplayValue::Boolean(true))), 1);
}

#[test]
fn poisoning_checks_count_observed_divergence() {
    let attack = AttackVector {
        attack_name: "swap".to_string(),
        checks: vec![
            FieldCheck {
                name: "epoch".to_string(),
                expected: ReplayValue::Num(4),
                actual: Some(ReplayValue::Num(7)),
            },
            FieldCheck {
                name: "tag".to_string(),
                expected: ReplayValue::Str("x".to_string()),
                actual: Some(ReplayValue::Str("x".to_string())),
            },
            FieldCheck {
                name: "aad".to_string(),
                expected: ReplayValue::Null,
                actual: None,
            },
        ],
        expected_defense: "reject".to_string(),
    };
    assert_eq!(count_violations(&attack.checks), 1);
}

#[test]
fn storm_estimate_matches_the_closed_form() {
    let p = StormProfileVec {
        profile_id: "burst".to_string(),
        burst_rate: 10,
        duration_ms: 10,
        // total 100, capacity 3*10 + 16 = 46, drops 54: 540000 ppm.
        expected_drop_ratio_ppm: 540_000,
    };
    assert!(storm_estimate_valid(16, 3, &p, 100_000));
}

#[test]
fn handshake_derivation_round_trips_against_direct_computation() {
    let resp_canonical: Vec<u8> = b"canonical-response-bytes".to_vec();
    let hash = Sha256::digest(&resp_canonical);
    let expected_hash = base64::engine::general_purpose::STANDARD.encode(hash);
    let hk = Hkdf::<Sha256>::new(None, &hash);
    let mut okm = [0u8; 32];
    hk.expand(b"FoxWhisper-SessionId", &mut okm).unwrap();
    let expected_session = base64::engine::general_purpose::STANDARD.encode(okm);
    assert!(validate_handshake_derivation(&resp_canonical, &expected_hash, &expected_session)
        .is_ok());
    assert_eq!(
        validate_handshake_derivation(&resp_canonical, "wrong", &expected_session),
        Err(HandshakeError::HashMismatch)
    );
    assert_eq!(
        validate_handshake_derivation(&resp_canonical, &expected_hash, "wrong"),
        Err(HandshakeError::SessionMismatch)
    );
}

#[test]
fn empty_input_hash_matches_the_known_digest() {
    // SHA-256 of no bytes, base64-encoded.
    let r = validate_handshake_derivation(
        &Vec::new(),
        "47DEQpj8HBSa+/TImW+5JCeuQeRkm5NMpJWZG3hSuFU=",
        "wrong-session",
    );
    assert_eq!(r, Err(HandshakeError::SessionMismatch));
}

#[test]
fn random_material_has_the_requested_size() {
    let s = generate_random_base64(32);
    let bytes = base64::engine::general_purpose::STANDARD.decode(&s).unwrap();
    assert_eq!(bytes.len(), 32);
    let other = generate_random_base64(32);
    assert_ne!(s, other, "two fresh 32-byte samples should differ");
}

#[test]
fn generated_flow_has_three_chronological_steps() {
    let flow = generate_handshake_flow();
    assert_eq!(flow.steps.len(), 3);
    assert_eq!(flow.steps[0].step_type, "HANDSHAKE_INIT");
    assert_eq!(flow.steps[1].step_type, "HANDSHAKE_RESPONSE");
    assert_eq!(flow.steps[2].step_type, "HANDSHAKE_COMPLETE");
    assert!(flow.steps[0].message.timestamp < flow.steps[1].message.timestamp);
    assert!(flow.steps[1].message.timestamp < flow.steps[2].message.timestamp);
    assert!(flow.steps[0].message.client_id.is_some());
    assert!(flow.steps[2].message.handshake_hash.is_some());
}

#[test]
fn canonical_order_sorts_by_length_then_bytes() {
    let keys: Vec<Vec<u8>> = vec![b"bb".to_vec(), b"a".to_vec(), b"ab".to_vec()];
    let order = canonical_key_order(&keys);
    assert_eq!(order, vec![1, 2, 0]);
}

#[test]
fn canonical_order_keeps_equal_keys_stable() {
    let keys: Vec<Vec<u8>> = vec![b"k".to_vec(), b"k".to_vec(), b"a".to_vec()];
    let order = canonical_key_order(&keys);
    assert_eq!(order, vec![2, 0, 1]);
}

#[test]
fn cross_language_results_replace_by_language() {
    let mut v = CrossLanguageValidator::new();
    v.record_result(LanguageResult {
        language: "go".to_string(),
        success: false,
        output: String::new(),
        errors: vec![],
    });
    v.record_result(LanguageResult {
        language: "go".to_string(),
        success: true,
        output: "ok".to_string(),
        errors: vec![],
    });
    v.record_result(LanguageResult {
        language: "node".to_string(),
        success: false,
        output: String::new(),
        errors: vec![],
    });
    assert_eq!(v.results.len(), 2);
    assert_eq!(v.success_count(), 1);
}

#[test]
fn fuzz_acceptance_checks_fields_and_key_sizes() {
    let data = vec![
        ("version".to_string(), ReplayValue::Num(1)),
        ("client_id".to_string(), ReplayValue::Str(b64_of(&[1u8; 32]))),
        ("x25519_public_key".to_string(), ReplayValue::Str(b64_of(&[2u8; 32]))),
        ("kyber_public_key".to_string(), ReplayValue::Str(b64_of(&[3u8; 64]))),
        ("nonce".to_string(), ReplayValue::Str(b64_of(&[4u8; 12]))),
    ];
    assert!(validate_handshake("HANDSHAKE_INIT", &data));
    assert!(!validate_handshake("HANDSHAKE_RESPONSE", &data));
    assert!(!validate_handshake("SOMETHING_ELSE", &data));
    let mut short = data.clone();
    short[4].1 = ReplayValue::Str(b64_of(&[4u8; 8]));
    assert!(!validate_handshake("HANDSHAKE_INIT", &short));
    assert!(base64_len(&data, "nonce", 12));
    assert!(!base64_len(&data, "nonce", 13));
    assert!(required_fields(&data, &vec!["version", "nonce"]));
    assert!(!required_fields(&data, &vec!["version", "ghost"]));
}

#[test]
fn fuzz_completion_checks_the_timestamp_range() {
    let ok = vec![("timestamp".to_string(), ReplayValue::Num(1_700_000_000_000))];
    assert!(validate_handshake("HANDSHAKE_COMPLETE", &ok));
    let late = vec![("timestamp".to_string(), ReplayValue::Num(5_000_000_000_000))];
    assert!(!validate_handshake("HANDSHAKE_COMPLETE", &late));
    let negative = vec![("timestamp".to_string(), ReplayValue::Num(-1))];
    assert!(!validate_handshake("HANDSHAKE_COMPLETE", &negative));
}

#[test]
fn fuzz_seed_expectation_reads_the_first_mutation() {
    let seed = Seed {
        seed_id: "s1".to_string(),
        message_type: "HANDSHAKE_INIT".to_string(),
        base_vector: "base#a".to_string(),
        mutations: vec![
            Mutation {
                op: MutationOp::RemoveField,
                field: "data.nonce".to_string(),
                factor: None,
                expected_outcome: Some(MutationOutcome::Recover),
            },
            Mutation {
                op: MutationOp::SetValue,
                field: "data.version".to_string(),
                factor: None,
                expected_outcome: Some(MutationOutcome::Reject),
            },
        ],
    };
    assert!(expected_success(&seed));
}
