//! Replay and poisoning vector validation.
//!
//! Validates pre-computed attack vectors: sliding-window replay detection
//! over sequence numbers, epoch-fork detection by parent fan-out,
//! malformed-record checks, anti-poisoning rule enforcement, poisoning
//! field comparisons, and a closed-form replay-storm estimate.

use vstd::prelude::*;

use crate::desync::VAL_BOUND;
use crate::ratio::PPM_SCALE;
use crate::ratio::ratio_within;

verus! {

/// A plain value carried by a vector's fields.
#[derive(Clone)]
pub enum ReplayValue {
    Str(String),
    Num(i64),
    Boolean(bool),
    Null,
    OtherKind,
}

/// Whether two plain values are the same; values of kinds the model does
/// not carry compare equal to each other.
pub open spec fn spec_rv_eq(a: ReplayValue, b: ReplayValue) -> bool {
    match (a, b) {
        (ReplayValue::Str(x), ReplayValue::Str(y)) => x@ == y@,
        (ReplayValue::Num(x), ReplayValue::Num(y)) => x == y,
        (ReplayValue::Boolean(x), ReplayValue::Boolean(y)) => x == y,
        (ReplayValue::Null, ReplayValue::Null) => true,
        (ReplayValue::OtherKind, ReplayValue::OtherKind) => true,
        _ => false,
    }
}

/// Whether two plain values are the same.
pub fn rv_eq(a: &ReplayValue, b: &ReplayValue) -> (r: bool)
    ensures
        r == spec_rv_eq(*a, *b),
{
    match (a, b) {
        (ReplayValue::Str(x), ReplayValue::Str(y)) => x.eq(y),
        (ReplayValue::Num(x), ReplayValue::Num(y)) => x == y,
        (ReplayValue::Boolean(x), ReplayValue::Boolean(y)) => x == y,
        (ReplayValue::Null, ReplayValue::Null) => true,
        (ReplayValue::OtherKind, ReplayValue::OtherKind) => true,
        _ => false,
    }
}

/// The integer a plain value stands for: numbers as themselves, booleans
/// as zero or one, everything else as zero.
pub open spec fn spec_get_int(v: Option<ReplayValue>) -> int {
    match v {
        Some(ReplayValue::Num(n)) => n as int,
        Some(ReplayValue::Boolean(b)) => if b {
            1
        } else {
            0
        },
        _ => 0,
    }
}

/// The integer a plain value stands for; see `spec_get_int`.
pub fn get_int(v: Option<&ReplayValue>) -> (r: i64)
    ensures
        r as int == spec_get_int(match v {
            Some(x) => Some(*x),
            None => None,
        }),
{
    match v {
        Some(ReplayValue::Num(n)) => *n,
        Some(ReplayValue::Boolean(b)) => if *b {
            1
        } else {
            0
        },
        _ => 0,
    }
}

/// First value named `k` in a field list, or -1.
pub open spec fn rv_find(fields: Seq<(String, ReplayValue)>, k: Seq<char>) -> int
    decreases fields.len(),
{
    if fields.len() == 0 {
        -1
    } else if fields[0].0@ == k {
        0
    } else {
        let rest = rv_find(fields.drop_first(), k);
        if rest == -1 {
            -1
        } else {
            rest + 1
        }
    }
}

pub proof fn lemma_rv_find(fields: Seq<(String, ReplayValue)>, k: Seq<char>)
    ensures
        -1 <= rv_find(fields, k) < fields.len(),
        rv_find(fields, k) >= 0 ==> fields[rv_find(fields, k)].0@ == k && forall|i: int|
            0 <= i < rv_find(fields, k) ==> (#[trigger] fields[i]).0@ != k,
        rv_find(fields, k) == -1 ==> forall|i: int|
            0 <= i < fields.len() ==> (#[trigger] fields[i]).0@ != k,
    decreases fields.len(),
{
    if fields.len() > 0 && fields[0].0@ != k {
        lemma_rv_find(fields.drop_first(), k);
        assert forall|i: int| 1 <= i < fields.len() implies fields.drop_first()[i - 1] == fields[i] by {}
    }
}

pub fn rv_index(fields: &Vec<(String, ReplayValue)>, k: &str) -> (r: Option<usize>)
    ensures
        r matches Some(i) ==> i as int == rv_find(fields@, k@) && i < fields@.len(),
        r is None ==> rv_find(fields@, k@) == -1,
{
    let ks: String = k.to_owned();
    let n = fields.len();
    for i in 0..n
        invariant
            n == fields@.len(),
            ks@ == k@,
            forall|j: int| 0 <= j < i ==> (#[trigger] fields@[j]).0@ != k@,
    {
        if fields[i].0.eq(&ks) {
            proof {
                lemma_rv_find(fields@, k@);
                if rv_find(fields@, k@) != i as int {
                    assert(fields@[rv_find(fields@, k@)].0@ == k@);
                }
            }
            return Some(i);
        }
    }
    proof {
        lemma_rv_find(fields@, k@);
        if rv_find(fields@, k@) >= 0 {
            assert(fields@[rv_find(fields@, k@)].0@ == k@);
        }
    }
    None
}

// ---------------------------------------------------------------------------
// Sliding-window replay detection.
// ---------------------------------------------------------------------------

/// The sequence numbers of `seen` still inside the window ending at
/// `cutoff`.
pub open spec fn retain_ge(seen: Seq<i64>, cutoff: int) -> Seq<i64>
    decreases seen.len(),
{
    if seen.len() == 0 {
        Seq::empty()
    } else {
        (if seen[0] >= cutoff {
            seq![seen[0]]
        } else {
            Seq::<i64>::empty()
        }) + retain_ge(seen.drop_first(), cutoff)
    }
}

/// Whether a sequence number occurs in the retained window.
pub open spec fn seen_contains(seen: Seq<i64>, v: i64) -> bool {
    exists|i: int| 0 <= i < seen.len() && seen[i] == v
}

/// The sliding-window scan: each arriving sequence number first expires
/// everything older than its window, then counts as a replay if it is
/// still in the window, then joins it.
pub open spec fn spec_replay_scan(seen: Seq<i64>, seqs: Seq<i64>, window: i64) -> bool
    decreases seqs.len(),
{
    if seqs.len() == 0 {
        false
    } else {
        let cutoff = seqs[0] - window;
        let retained = retain_ge(seen, cutoff);
        let hit = seen_contains(retained, seqs[0]);
        hit || spec_replay_scan(retained.push(seqs[0]), seqs.drop_first(), window)
    }
}

/// Whether a sequence-number stream contains a replay under the given
/// window.
pub open spec fn spec_detect_replay(seqs: Seq<i64>, window: i64) -> bool {
    spec_replay_scan(Seq::empty(), seqs, window)
}

/// Sliding-window replay detection; see `spec_detect_replay`.
pub fn detect_replay(sequence_numbers: &Vec<i64>, window: i64) -> (r: bool)
    requires
        -VAL_BOUND <= window <= VAL_BOUND,
        forall|i: int|
            0 <= i < sequence_numbers@.len() ==> -VAL_BOUND <= (#[trigger] sequence_numbers@[i])
                <= VAL_BOUND,
    ensures
        r == spec_detect_replay(sequence_numbers@, window),
{
    let mut seen: Vec<i64> = Vec::new();
    let mut detection = false;
    let n = sequence_numbers.len();
    proof {
        assert(sequence_numbers@.skip(0) =~= sequence_numbers@);
    }
    for i in 0..n
        invariant
            n == sequence_numbers@.len(),
            -VAL_BOUND <= window <= VAL_BOUND,
            forall|j: int|
                0 <= j < n ==> -VAL_BOUND <= (#[trigger] sequence_numbers@[j]) <= VAL_BOUND,
            forall|j: int| 0 <= j < seen@.len() ==> -VAL_BOUND <= (#[trigger] seen@[j]) <= VAL_BOUND,
            spec_detect_replay(sequence_numbers@, window) == (detection || spec_replay_scan(
                seen@,
                sequence_numbers@.skip(i as int),
                window,
            )),
    {
        proof {
            assert(sequence_numbers@.skip(i as int)[0] == sequence_numbers@[i as int]);
            assert(sequence_numbers@.skip(i as int).drop_first() =~= sequence_numbers@.skip(
                i as int + 1,
            ));
        }
        let s = sequence_numbers[i];
        let cutoff = s - window;
        let mut retained: Vec<i64> = Vec::new();
        let ns = seen.len();
        proof {
            assert(seen@.skip(0) =~= seen@);
        }
        for j in 0..ns
            invariant
                ns == seen@.len(),
                cutoff == s - window,
                forall|l: int| 0 <= l < ns ==> -VAL_BOUND <= (#[trigger] seen@[l]) <= VAL_BOUND,
                forall|l: int|
                    0 <= l < retained@.len() ==> -VAL_BOUND <= (#[trigger] retained@[l]) <= VAL_BOUND,
                retained@ + retain_ge(seen@.skip(j as int), cutoff as int) =~= retain_ge(
                    seen@,
                    cutoff as int,
                ),
        {
            proof {
                assert(seen@.skip(j as int)[0] == seen@[j as int]);
                assert(seen@.skip(j as int).drop_first() =~= seen@.skip(j as int + 1));
            }
            if seen[j] >= cutoff {
                let ghost pre = retained@;
                retained.push(seen[j]);
                proof {
                    assert(retained@ =~= pre + seq![seen@[j as int]]);
                }
            }
        }
        proof {
            assert(seen@.skip(ns as int) =~= Seq::<i64>::empty());
            assert(retained@ =~= retain_ge(seen@, cutoff as int));
        }
        let nr = retained.len();
        let mut hit = false;
        for j in 0..nr
            invariant
                nr == retained@.len(),
                hit == exists|l: int| 0 <= l < j && retained@[l] == s,
        {
            if retained[j] == s {
                hit = true;
            }
        }
        proof {
            assert(hit == seen_contains(retained@, s));
        }
        if hit {
            detection = true;
        }
        retained.push(s);
        seen = retained;
    }
    proof {
        assert(sequence_numbers@.skip(n as int) =~= Seq::<i64>::empty());
    }
    detection
}

// ---------------------------------------------------------------------------
// The vector suites.
// ---------------------------------------------------------------------------

/// One replay test case.
pub struct ReplayTestCase {
    pub case: String,
    pub sequence_numbers: Vec<i64>,
    pub expected_detection: bool,
    pub notes: Option<String>,
}

/// A replay suite: a window size and its cases.
pub struct ReplayCases {
    pub window_size: i64,
    pub test_cases: Vec<ReplayTestCase>,
}

/// One entry of an epoch-fork timeline.
#[derive(Clone)]
pub struct EpochEntry {
    pub epoch_id: String,
    pub parent: Option<String>,
}

/// One epoch-fork scenario vector.
pub struct EpochScenarioVec {
    pub scenario: String,
    pub expected_fork_detected: bool,
    pub timeline: Vec<EpochEntry>,
}

/// One malformed-record vector.
pub struct EareRecord {
    pub record_id: String,
    pub fields: Vec<(String, ReplayValue)>,
    pub required_fields: Option<Vec<String>>,
    pub hash_bytes: Option<i64>,
    pub min_hash_bytes: Option<i64>,
    pub expected_valid: bool,
}

/// What an anti-poisoning rule demands.
pub enum RuleCondition {
    /// The nonce counter may not run ahead of the last by more than this.
    MaxDrift(i64),
    /// The sender identity must match the one bound in the AAD.
    RequireBinding,
    /// The AAD may be absent or null.
    AllowMissingAad,
    /// A condition the checker does not model; trivially enforced.
    OtherCond,
}

/// One anti-poisoning rule and its sample message.
pub struct AntiPoisoningRule {
    pub rule_id: String,
    pub condition: RuleCondition,
    pub sample_message: Vec<(String, ReplayValue)>,
    pub expected_enforced: bool,
}

/// One poisoning field comparison: the declared expected value against the
/// observed one, when an observation exists.
pub struct FieldCheck {
    pub name: String,
    pub expected: ReplayValue,
    pub actual: Option<ReplayValue>,
}

/// One poisoning attack vector.
pub struct AttackVector {
    pub attack_name: String,
    pub checks: Vec<FieldCheck>,
    pub expected_defense: String,
}

/// One replay-storm profile of the closed-form estimate.
pub struct StormProfileVec {
    pub profile_id: String,
    pub burst_rate: u64,
    pub duration_ms: u64,
    pub expected_drop_ratio_ppm: u64,
}

/// One validated vector: its name and whether it matched expectations.
pub struct ScenarioResult {
    pub scenario: String,
    pub valid: bool,
}

/// Whether two siblings ever share a parent: fork detection by parent
/// fan-out.
pub open spec fn spec_fork_by_fanout(timeline: Seq<EpochEntry>) -> bool {
    exists|i: int, j: int|
        0 <= i < j < timeline.len() && (#[trigger] timeline[i]).parent is Some && (
        #[trigger] timeline[j]).parent is Some && timeline[i].parent->0@ == timeline[j].parent->0@
}

/// Fork detection by parent fan-out; see `spec_fork_by_fanout`.
pub fn fork_by_fanout(timeline: &Vec<EpochEntry>) -> (r: bool)
    ensures
        r == spec_fork_by_fanout(timeline@),
{
    let n = timeline.len();
    for j in 0..n
        invariant
            n == timeline@.len(),
            forall|a: int, b: int|
                0 <= a < b < j ==> !((#[trigger] timeline@[a]).parent is Some && (
                #[trigger] timeline@[b]).parent is Some && timeline@[a].parent->0@
                    == timeline@[b].parent->0@),
    {
        if let Some(pj) = &timeline[j].parent {
            for i in 0..j
                invariant
                    n == timeline@.len(),
                    j < n,
                    timeline@[j as int].parent matches Some(p) && p == pj,
                    forall|a: int, b: int|
                        0 <= a < b < j ==> !((#[trigger] timeline@[a]).parent is Some && (
                        #[trigger] timeline@[b]).parent is Some && timeline@[a].parent->0@
                            == timeline@[b].parent->0@),
                    forall|a: int|
                        0 <= a < i ==> !((#[trigger] timeline@[a]).parent is Some
                            && timeline@[a].parent->0@ == pj@),
            {
                if let Some(pi) = &timeline[i].parent {
                    if pi.eq(pj) {
                        return true;
                    }
                }
            }
        }
    }
    false
}

/// Whether a record is well formed: every required field present, and its
/// hash material at least the declared minimum (32 bytes when none is
/// declared). A record without a declared hash size falls back to half the
/// character length of its `hash` field.
pub open spec fn spec_record_valid(r: EareRecord) -> bool {
    let missing = exists|i: int|
        0 <= i < spec_required(r).len() && rv_find(r.fields@, (#[trigger] spec_required(r)[i])@)
            == -1;
    let declared = match r.hash_bytes {
        Some(h) => h as int,
        None => 0,
    };
    let hash_bytes = if declared == 0 {
        let hi = rv_find(r.fields@, "hash"@);
        if hi >= 0 {
            match r.fields@[hi].1 {
                ReplayValue::Str(s) => (s@.len() / 2) as int,
                _ => 0,
            }
        } else {
            0
        }
    } else {
        declared
    };
    let min_hash = match r.min_hash_bytes {
        Some(m) => m as int,
        None => 32,
    };
    !missing && hash_bytes >= min_hash
}

/// The required fields a record declares, or none.
pub open spec fn spec_required(r: EareRecord) -> Seq<String> {
    match r.required_fields {
        Some(f) => f@,
        None => Seq::empty(),
    }
}

/// Whether an anti-poisoning rule holds of its sample message.
pub open spec fn spec_rule_enforced(rule: AntiPoisoningRule) -> bool {
    let sample = rule.sample_message@;
    match rule.condition {
        RuleCondition::MaxDrift(limit) => {
            let drift = spec_get_int(rv_at(sample, "nonce_counter"@)) - spec_get_int(
                rv_at(sample, "last_nonce_counter"@),
            );
            drift <= limit as int
        },
        RuleCondition::RequireBinding => {
            match (rv_at(sample, "sender_id"@), rv_at(sample, "aad_sender"@)) {
                (Some(a), Some(b)) => spec_rv_eq(a, b),
                (None, None) => true,
                _ => false,
            }
        },
        RuleCondition::AllowMissingAad => {
            match rv_at(sample, "aad"@) {
                None => true,
                Some(v) => v is Null,
            }
        },
        RuleCondition::OtherCond => true,
    }
}

/// The value stored under a name, if any.
pub open spec fn rv_at(fields: Seq<(String, ReplayValue)>, k: Seq<char>) -> Option<ReplayValue> {
    if rv_find(fields, k) >= 0 {
        Some(fields[rv_find(fields, k)].1)
    } else {
        None
    }
}

/// How many poisoning checks found the observed value differing from the
/// expected one.
pub open spec fn spec_violations(checks: Seq<FieldCheck>) -> int
    decreases checks.len(),
{
    if checks.len() == 0 {
        0
    } else {
        (match checks[0].actual {
            Some(a) => if !spec_rv_eq(a, checks[0].expected) {
                1int
            } else {
                0int
            },
            None => 0int,
        }) + spec_violations(checks.drop_first())
    }
}

pub proof fn lemma_violations_bound(checks: Seq<FieldCheck>)
    ensures
        0 <= spec_violations(checks) <= checks.len(),
    decreases checks.len(),
{
    if checks.len() > 0 {
        lemma_violations_bound(checks.drop_first());
    }
}

/// Count the failed poisoning checks; see `spec_violations`.
pub fn count_violations(checks: &Vec<FieldCheck>) -> (r: usize)
    ensures
        r as int == spec_violations(checks@),
{
    proof {
        lemma_violations_bound(checks@);
        assert(checks@.skip(0) =~= checks@);
    }
    let n = checks.len();
    let mut count: usize = 0;
    for i in 0..n
        invariant
            n == checks@.len(),
            count <= i,
            count + spec_violations(checks@.skip(i as int)) == spec_violations(checks@),
    {
        proof {
            assert(checks@.skip(i as int)[0] == checks@[i as int]);
            assert(checks@.skip(i as int).drop_first() =~= checks@.skip(i as int + 1));
            lemma_violations_bound(checks@.skip(i as int + 1));
        }
        if let Some(a) = &checks[i].actual {
            if !rv_eq(a, &checks[i].expected) {
                count = count + 1;
            }
        }
    }
    count
}

/// The closed-form replay-storm estimate: everything offered beyond the
/// run's processing capacity plus one window's queue is dropped, and the
/// profile passes when the drop ratio lands within the tolerance of the
/// expected ratio.
pub open spec fn spec_storm_estimate_valid(
    window: u64,
    capacity_per_ms: u64,
    p: StormProfileVec,
    tol_ppm: u64,
) -> bool {
    let total = p.burst_rate * p.duration_ms;
    let capacity = capacity_per_ms * p.duration_ms + window;
    let drops: int = if total > capacity {
        total - capacity
    } else {
        0
    };
    if total == 0 {
        p.expected_drop_ratio_ppm <= tol_ppm
    } else if drops * PPM_SCALE >= p.expected_drop_ratio_ppm * total {
        drops * PPM_SCALE - p.expected_drop_ratio_ppm * total <= tol_ppm * total
    } else {
        p.expected_drop_ratio_ppm * total - drops * PPM_SCALE <= tol_ppm * total
    }
}

/// Check one storm profile against the closed-form estimate; see
/// `spec_storm_estimate_valid`.
pub fn storm_estimate_valid(window: u64, capacity_per_ms: u64, p: &StormProfileVec, tol_ppm: u64) -> (r:
    bool)
    requires
        window <= 1_000_000_000,
        capacity_per_ms <= 1_000_000_000,
        p.burst_rate <= 1_000_000_000,
        p.duration_ms <= 1_000_000_000,
    ensures
        r == spec_storm_estimate_valid(window, capacity_per_ms, *p, tol_ppm),
{
    proof {
        assert(p.burst_rate as int * p.duration_ms as int <= 1_000_000_000_000_000_000)
            by (nonlinear_arith)
            requires
                p.burst_rate <= 1_000_000_000,
                p.duration_ms <= 1_000_000_000,
        ;
        assert(capacity_per_ms as int * p.duration_ms as int <= 1_000_000_000_000_000_000)
            by (nonlinear_arith)
            requires
                capacity_per_ms <= 1_000_000_000,
                p.duration_ms <= 1_000_000_000,
        ;
    }
    let total: u64 = p.burst_rate * p.duration_ms;
    let capacity: u64 = capacity_per_ms * p.duration_ms + window;
    let drops: u64 = if total > capacity {
        total - capacity
    } else {
        0
    };
    ratio_within(drops, total, p.expected_drop_ratio_ppm, tol_ppm)
}


/// Check one malformed-record vector; see `spec_record_valid`.
pub fn record_valid(r: &EareRecord) -> (ok: bool)
    ensures
        ok == spec_record_valid(*r),
{
    proof {
        reveal_strlit("hash");
    }
    let mut missing = false;
    match &r.required_fields {
        Some(req) => {
            let n = req.len();
            for i in 0..n
                invariant
                    n == req@.len(),
                    req@ == spec_required(*r),
                    missing == exists|j: int|
                        0 <= j < i && rv_find(r.fields@, (#[trigger] req@[j])@) == -1,
            {
                if rv_index(&r.fields, req[i].as_str()).is_none() {
                    missing = true;
                }
            }
        },
        None => {},
    }
    let declared: i64 = match r.hash_bytes {
        Some(h) => h,
        None => 0,
    };
    let hash_bytes: i64 = if declared == 0 {
        match rv_index(&r.fields, "hash") {
            Some(hi) => match &r.fields[hi].1 {
                ReplayValue::Str(s) => (s.as_str().unicode_len() / 2) as i64,
                _ => 0,
            },
            None => 0,
        }
    } else {
        declared
    };
    let min_hash: i64 = match r.min_hash_bytes {
        Some(m) => m,
        None => 32,
    };
    !missing && hash_bytes >= min_hash
}

/// Check one anti-poisoning rule against its sample; see
/// `spec_rule_enforced`.
pub fn rule_enforced(rule: &AntiPoisoningRule) -> (ok: bool)
    requires
        (rule.condition matches RuleCondition::MaxDrift(limit) ==> -VAL_BOUND <= limit
            <= VAL_BOUND),
        forall|i: int|
            0 <= i < rule.sample_message@.len() ==> ((#[trigger] rule.sample_message@[i]).1 matches
                ReplayValue::Num(x) ==> -VAL_BOUND <= x <= VAL_BOUND),
    ensures
        ok == spec_rule_enforced(*rule),
{
    proof {
        reveal_strlit("nonce_counter");
        reveal_strlit("last_nonce_counter");
        reveal_strlit("sender_id");
        reveal_strlit("aad_sender");
        reveal_strlit("aad");
    }
    match &rule.condition {
        RuleCondition::MaxDrift(limit) => {
            let nc = match rv_index(&rule.sample_message, "nonce_counter") {
                Some(i) => get_int(Some(&rule.sample_message[i].1)),
                None => get_int(None),
            };
            let lc = match rv_index(&rule.sample_message, "last_nonce_counter") {
                Some(i) => get_int(Some(&rule.sample_message[i].1)),
                None => get_int(None),
            };
            proof {
                assert(nc as int == spec_get_int(rv_at(rule.sample_message@, "nonce_counter"@)));
                assert(lc as int == spec_get_int(
                    rv_at(rule.sample_message@, "last_nonce_counter"@),
                ));
                assert(-VAL_BOUND <= nc <= VAL_BOUND || nc == 0 || nc == 1);
                assert(-VAL_BOUND <= lc <= VAL_BOUND || lc == 0 || lc == 1);
            }
            nc - lc <= *limit
        },
        RuleCondition::RequireBinding => {
            let a = rv_index(&rule.sample_message, "sender_id");
            let b = rv_index(&rule.sample_message, "aad_sender");
            match (a, b) {
                (Some(i), Some(j)) => rv_eq(&rule.sample_message[i].1, &rule.sample_message[j].1),
                (None, None) => true,
                _ => false,
            }
        },
        RuleCondition::AllowMissingAad => {
            match rv_index(&rule.sample_message, "aad") {
                None => true,
                Some(i) => match &rule.sample_message[i].1 {
                    ReplayValue::Null => true,
                    _ => false,
                },
            }
        },
        RuleCondition::OtherCond => true,
    }
}

} // verus!
