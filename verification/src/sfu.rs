//! SFU-abuse tracker.
//!
//! Replays a media-routing scenario: an authorization set gates publish and
//! subscribe, unauthorized actions are counted and flagged, simulcast-layer
//! requests are checked against the layers declared at publish time, and
//! key-related attacks raise their own violation codes without touching
//! routing state.

use vstd::prelude::*;

use crate::codes::Status;
use crate::codes::ViolationCode;
use crate::codes::contains;
use crate::codes::push_err;
use crate::codes::spec_push_err;
use crate::desync::MAX_EVENTS;
use crate::desync::VAL_BOUND;
use crate::desync::opt_int;
use crate::scheduler::is_replay_order;
use crate::scheduler::schedule;

verus! {

/// A published media track.
pub struct Track {
    pub id: String,
    pub kind: String,
    pub layers: Vec<String>,
}

/// One declared participant: identity, role, tokens and tracks.
pub struct Participant {
    pub id: String,
    pub role: String,
    pub authz_tokens: Vec<String>,
    pub tracks: Vec<Track>,
}

/// The SFU room under attack.
pub struct SfuContext {
    pub sfu_id: String,
    pub room_id: String,
    pub expected_participants: Vec<String>,
    pub auth_mode: String,
}

/// One timeline event, a tagged variant with a fixed schema per tag.
pub enum SfuEventKind {
    Join { participant: Option<String>, token: Option<String> },
    Publish { participant: Option<String>, track_id: Option<String>, layers: Option<Vec<String>> },
    Subscribe { participant: Option<String>, track_id: Option<String> },
    GhostSubscribe { participant: Option<String> },
    Impersonate { participant: Option<String> },
    ReplayTrack { track_id: Option<String> },
    DupTrack { track_id: Option<String> },
    SimulcastSpoof { track_id: Option<String>, requested_layers: Option<Vec<String>> },
    BitrateAbuse,
    KeyRotationSkip,
    StaleKeyReuse,
    StealKey,
    Other(String),
}

/// One timeline event at a logical time.
pub struct SfuEvent {
    pub t: i64,
    pub kind: SfuEventKind,
}

/// The scenario's declared outcome contract.
pub struct SfuExpectations {
    pub should_detect: bool,
    pub expected_errors: Vec<ViolationCode>,
    pub max_detection_ms: i64,
    pub allow_partial_accept: bool,
    pub residual_routing_allowed: bool,
    pub max_hijacked_tracks: i64,
    pub max_unauthorized_tracks: i64,
    pub max_key_leak_attempts: i64,
    pub max_extra_latency_ms: i64,
    pub max_false_positive_blocks: i64,
    pub max_false_negative_leaks: i64,
}

/// One SFU-abuse scenario.
pub struct SfuScenario {
    pub scenario_id: String,
    pub tags: Vec<String>,
    pub sfu_context: SfuContext,
    pub participants: Vec<Participant>,
    pub timeline: Vec<SfuEvent>,
    pub expectations: SfuExpectations,
}

/// Mathematical value of the tracker's state.
#[verifier::ext_equal]
pub ghost struct SfuStateV {
    pub authed: Seq<String>,
    pub routes: Seq<(String, String)>,
    pub track_layers: Seq<(String, Seq<String>)>,
    pub affected: Seq<String>,
    pub key_leak_attempts: int,
    pub unauthorized_tracks: int,
    pub replayed_tracks: int,
    pub duplicate_routes: int,
    pub simulcast_spoofs: int,
    pub bitrate_abuse_events: int,
    pub detection_time: Option<int>,
    pub errors: Seq<ViolationCode>,
}

/// Whether `list` holds a string reading `s`.
pub open spec fn sfu_contains_str(list: Seq<String>, s: String) -> bool {
    exists|i: int| 0 <= i < list.len() && (#[trigger] list[i])@ == s@
}

/// `list` with `s` joined unless a string reading the same is present.
pub open spec fn sfu_insert_str(list: Seq<String>, s: String) -> Seq<String> {
    if sfu_contains_str(list, s) {
        list
    } else {
        list.push(s)
    }
}

/// Whether a key reading `k` is routed.
pub open spec fn sfu_has_key<V>(m: Seq<(String, V)>, k: String) -> bool {
    exists|i: int| 0 <= i < m.len() && (#[trigger] m[i]).0@ == k@
}

/// First participant declared under identity `pid`, or -1.
pub open spec fn find_participant(ps: Seq<Participant>, pid: String) -> int
    decreases ps.len(),
{
    if ps.len() == 0 {
        -1
    } else if ps[0].id@ == pid@ {
        0
    } else {
        let rest = find_participant(ps.drop_first(), pid);
        if rest == -1 {
            -1
        } else {
            rest + 1
        }
    }
}

pub proof fn lemma_find_participant(ps: Seq<Participant>, pid: String)
    ensures
        -1 <= find_participant(ps, pid) < ps.len(),
        find_participant(ps, pid) == -1 ==> forall|i: int|
            0 <= i < ps.len() ==> (#[trigger] ps[i]).id@ != pid@,
        find_participant(ps, pid) >= 0 ==> {
            &&& ps[find_participant(ps, pid)].id@ == pid@
            &&& forall|i: int| 0 <= i < find_participant(ps, pid) ==> (#[trigger] ps[i]).id@ != pid@
        },
    decreases ps.len(),
{
    if ps.len() > 0 && ps[0].id@ != pid@ {
        lemma_find_participant(ps.drop_first(), pid);
        assert forall|i: int| 1 <= i < ps.len() implies ps.drop_first()[i - 1] == ps[i] by {}
    }
}

/// Whether one of the requested layers was never declared.
pub open spec fn some_layer_missing(requested: Seq<String>, allowed: Seq<String>) -> bool {
    exists|i: int| 0 <= i < requested.len() && !sfu_contains_str(allowed, #[trigger] requested[i])
}

/// Record a violation.
pub open spec fn sfu_err(v: SfuStateV, code: ViolationCode) -> SfuStateV {
    SfuStateV { errors: spec_push_err(v.errors, code), ..v }
}

/// One replay step of the SFU tracker: the event's gate checks, then
/// detection latching at the first event that leaves a violation recorded.
pub open spec fn spec_sfu_step(v: SfuStateV, ev: SfuEvent, participants: Seq<Participant>) -> SfuStateV {
    let v1 = spec_sfu_event(v, ev, participants);
    if v1.errors.len() > 0 && v1.detection_time is None {
        SfuStateV { detection_time: Some(ev.t as int), ..v1 }
    } else {
        v1
    }
}

/// The event's own effect on the tracker.
pub open spec fn spec_sfu_event(v: SfuStateV, ev: SfuEvent, participants: Seq<Participant>) -> SfuStateV {
    match ev.kind {
        SfuEventKind::Join { participant, token } => match participant {
            Some(pid) => {
                let pi = find_participant(participants, pid);
                if pi >= 0 {
                    match token {
                        Some(tok) => if sfu_contains_str(participants[pi].authz_tokens@, tok) {
                            SfuStateV { authed: sfu_insert_str(v.authed, pid), ..v }
                        } else {
                            sfu_err(v, ViolationCode::Impersonation)
                        },
                        None => sfu_err(v, ViolationCode::Impersonation),
                    }
                } else {
                    sfu_err(v, ViolationCode::Impersonation)
                }
            },
            None => v,
        },
        SfuEventKind::Publish { participant, track_id, layers } => {
            if participant is Some && track_id is Some {
                let pid = participant->0;
                let tid = track_id->0;
                if !sfu_contains_str(v.authed, pid) {
                    SfuStateV {
                        unauthorized_tracks: v.unauthorized_tracks + 1,
                        ..sfu_err(v, ViolationCode::UnauthorizedSubscribe)
                    }
                } else {
                    let ls = match layers {
                        Some(l) => l@,
                        None => Seq::empty(),
                    };
                    SfuStateV {
                        routes: v.routes.push((tid, pid)),
                        track_layers: v.track_layers.push((tid, ls)),
                        ..v
                    }
                }
            } else {
                SfuStateV {
                    unauthorized_tracks: v.unauthorized_tracks + 1,
                    ..sfu_err(v, ViolationCode::UnauthorizedSubscribe)
                }
            }
        },
        SfuEventKind::Subscribe { participant, track_id } => {
            if participant is Some && track_id is Some {
                if !sfu_contains_str(v.authed, participant->0) || !sfu_has_key(
                    v.routes,
                    track_id->0,
                ) {
                    SfuStateV {
                        unauthorized_tracks: v.unauthorized_tracks + 1,
                        ..sfu_err(v, ViolationCode::UnauthorizedSubscribe)
                    }
                } else {
                    v
                }
            } else {
                SfuStateV {
                    unauthorized_tracks: v.unauthorized_tracks + 1,
                    ..sfu_err(v, ViolationCode::UnauthorizedSubscribe)
                }
            }
        },
        SfuEventKind::GhostSubscribe { participant } => match participant {
            Some(pid) => SfuStateV {
                unauthorized_tracks: v.unauthorized_tracks + 1,
                affected: sfu_insert_str(v.affected, pid),
                ..sfu_err(v, ViolationCode::UnauthorizedSubscribe)
            },
            None => v,
        },
        SfuEventKind::Impersonate { participant } => match participant {
            Some(pid) => SfuStateV {
                affected: sfu_insert_str(v.affected, pid),
                ..sfu_err(v, ViolationCode::Impersonation)
            },
            None => v,
        },
        SfuEventKind::ReplayTrack { track_id } => match track_id {
            Some(tid) => if sfu_has_key(v.routes, tid) {
                SfuStateV {
                    replayed_tracks: v.replayed_tracks + 1,
                    ..sfu_err(v, ViolationCode::ReplayTrack)
                }
            } else {
                v
            },
            None => v,
        },
        SfuEventKind::DupTrack { track_id } => match track_id {
            Some(tid) => if sfu_has_key(v.routes, tid) {
                SfuStateV {
                    duplicate_routes: v.duplicate_routes + 1,
                    ..sfu_err(v, ViolationCode::DuplicateRoute)
                }
            } else {
                v
            },
            None => v,
        },
        SfuEventKind::SimulcastSpoof { track_id, requested_layers } => match track_id {
            Some(tid) => {
                let requested = match requested_layers {
                    Some(r) => r@,
                    None => Seq::empty(),
                };
                let li = crate::desync::find_key(v.track_layers, tid);
                let allowed = if li == -1 {
                    Seq::empty()
                } else {
                    v.track_layers[li].1
                };
                if some_layer_missing(requested, allowed) {
                    SfuStateV {
                        simulcast_spoofs: v.simulcast_spoofs + 1,
                        ..sfu_err(v, ViolationCode::SimulcastSpoof)
                    }
                } else {
                    v
                }
            },
            None => v,
        },
        SfuEventKind::BitrateAbuse => SfuStateV {
            bitrate_abuse_events: v.bitrate_abuse_events + 1,
            ..sfu_err(v, ViolationCode::BitrateAbuse)
        },
        SfuEventKind::KeyRotationSkip => SfuStateV {
            key_leak_attempts: v.key_leak_attempts + 1,
            ..sfu_err(v, ViolationCode::StaleKeyReuse)
        },
        SfuEventKind::StaleKeyReuse => SfuStateV {
            key_leak_attempts: v.key_leak_attempts + 1,
            ..sfu_err(v, ViolationCode::StaleKeyReuse)
        },
        SfuEventKind::StealKey => SfuStateV {
            key_leak_attempts: v.key_leak_attempts + 1,
            ..sfu_err(v, ViolationCode::KeyLeakAttempt)
        },
        SfuEventKind::Other(_) => v,
    }
}


/// Fold of `spec_sfu_step` over an event sequence; no event is fatal.
pub open spec fn spec_sfu_run(v: SfuStateV, events: Seq<SfuEvent>, participants: Seq<Participant>) -> SfuStateV
    decreases events.len(),
{
    if events.len() == 0 {
        v
    } else {
        spec_sfu_run(spec_sfu_step(v, events[0], participants), events.drop_first(), participants)
    }
}

/// The SFU fold appends one step at a time.
pub proof fn lemma_sfu_run_snoc(
    v: SfuStateV,
    events: Seq<SfuEvent>,
    participants: Seq<Participant>,
)
    requires
        events.len() > 0,
    ensures
        spec_sfu_run(v, events, participants) == spec_sfu_step(
            spec_sfu_run(v, events.drop_last(), participants),
            events.last(),
            participants,
        ),
    decreases events.len(),
{
    if events.len() == 1 {
        assert(events.drop_last().len() == 0);
        assert(events.drop_first().len() == 0);
    } else {
        lemma_sfu_run_snoc(spec_sfu_step(v, events[0], participants), events.drop_first(), participants);
        assert(events.drop_first().drop_last() =~= events.drop_last().drop_first());
        assert(events.drop_first().last() == events.last());
        assert(events.drop_last()[0] == events[0]);
    }
}

/// The tracker before any event is replayed.
pub open spec fn init_sfu_state() -> SfuStateV {
    SfuStateV {
        authed: Seq::empty(),
        routes: Seq::empty(),
        track_layers: Seq::empty(),
        affected: Seq::empty(),
        key_leak_attempts: 0,
        unauthorized_tracks: 0,
        replayed_tracks: 0,
        duplicate_routes: 0,
        simulcast_spoofs: 0,
        bitrate_abuse_events: 0,
        detection_time: None,
        errors: Seq::empty(),
    }
}

/// SFU tracker state within bounds after `steps` events.
pub open spec fn sfu_state_bounded(v: SfuStateV, steps: int) -> bool {
    &&& 0 <= v.key_leak_attempts <= steps
    &&& 0 <= v.unauthorized_tracks <= steps
    &&& 0 <= v.replayed_tracks <= steps
    &&& 0 <= v.duplicate_routes <= steps
    &&& 0 <= v.simulcast_spoofs <= steps
    &&& 0 <= v.bitrate_abuse_events <= steps
    &&& v.routes.len() <= steps
    &&& v.affected.len() <= steps
    &&& match v.detection_time {
        Some(t) => -VAL_BOUND <= t <= VAL_BOUND,
        None => true,
    }
}

/// A fold of bounded events keeps the state bounded.
pub proof fn lemma_sfu_run_bounded(
    v: SfuStateV,
    events: Seq<SfuEvent>,
    participants: Seq<Participant>,
    steps0: int,
)
    requires
        sfu_state_bounded(v, steps0),
        0 <= steps0,
        forall|i: int| 0 <= i < events.len() ==> -VAL_BOUND <= (#[trigger] events[i]).t <= VAL_BOUND,
    ensures
        sfu_state_bounded(spec_sfu_run(v, events, participants), steps0 + events.len()),
    decreases events.len(),
{
    if events.len() > 0 {
        assert(sfu_state_bounded(spec_sfu_step(v, events[0], participants), steps0 + 1));
        assert forall|i: int|
            0 <= i < events.drop_first().len() implies -VAL_BOUND <= (
        #[trigger] events.drop_first()[i]).t <= VAL_BOUND by {
            assert(events.drop_first()[i] == events[i + 1]);
        }
        lemma_sfu_run_bounded(
            spec_sfu_step(v, events[0], participants),
            events.drop_first(),
            participants,
            steps0 + 1,
        );
    }
}

/// The metrics an SFU replay reports.
pub struct SfuMetrics {
    pub unauthorized_tracks: i64,
    pub hijacked_tracks: i64,
    pub impersonation_attempts: i64,
    pub key_leak_attempts: i64,
    pub duplicate_routes: i64,
    pub replayed_tracks: i64,
    pub simulcast_spoofs: i64,
    pub bitrate_abuse_events: i64,
    pub accepted_tracks: i64,
    pub rejected_tracks: i64,
    pub false_positive_blocks: i64,
    pub false_negative_leaks: i64,
    pub max_extra_latency_ms: i64,
    pub affected_participant_count: i64,
}

/// Mathematical value of the SFU metrics.
#[verifier::ext_equal]
pub ghost struct SfuMetricsV {
    pub unauthorized_tracks: int,
    pub hijacked_tracks: int,
    pub impersonation_attempts: int,
    pub key_leak_attempts: int,
    pub duplicate_routes: int,
    pub replayed_tracks: int,
    pub simulcast_spoofs: int,
    pub bitrate_abuse_events: int,
    pub accepted_tracks: int,
    pub rejected_tracks: int,
    pub false_positive_blocks: int,
    pub false_negative_leaks: int,
    pub max_extra_latency_ms: int,
    pub affected_participant_count: int,
}

impl View for SfuMetrics {
    type V = SfuMetricsV;

    open spec fn view(&self) -> SfuMetricsV {
        SfuMetricsV {
            unauthorized_tracks: self.unauthorized_tracks as int,
            hijacked_tracks: self.hijacked_tracks as int,
            impersonation_attempts: self.impersonation_attempts as int,
            key_leak_attempts: self.key_leak_attempts as int,
            duplicate_routes: self.duplicate_routes as int,
            replayed_tracks: self.replayed_tracks as int,
            simulcast_spoofs: self.simulcast_spoofs as int,
            bitrate_abuse_events: self.bitrate_abuse_events as int,
            accepted_tracks: self.accepted_tracks as int,
            rejected_tracks: self.rejected_tracks as int,
            false_positive_blocks: self.false_positive_blocks as int,
            false_negative_leaks: self.false_negative_leaks as int,
            max_extra_latency_ms: self.max_extra_latency_ms as int,
            affected_participant_count: self.affected_participant_count as int,
        }
    }
}

/// What one SFU replay reports before evaluation.
pub struct SfuOutcome {
    pub detection: bool,
    pub detection_ms: Option<i64>,
    pub errors: Vec<ViolationCode>,
    pub metrics: SfuMetrics,
}

/// Mathematical value of an SFU replay's report.
#[verifier::ext_equal]
pub ghost struct SfuOutcomeV {
    pub detection: bool,
    pub detection_ms: Option<int>,
    pub errors: Seq<ViolationCode>,
    pub metrics: SfuMetricsV,
}

impl View for SfuOutcome {
    type V = SfuOutcomeV;

    open spec fn view(&self) -> SfuOutcomeV {
        SfuOutcomeV {
            detection: self.detection,
            detection_ms: opt_int(self.detection_ms),
            errors: self.errors@,
            metrics: self.metrics@,
        }
    }
}

/// Close an SFU replay: detection holds exactly when a violation was
/// recorded, and the metrics are read off the final state.
pub open spec fn spec_sfu_finish(v: SfuStateV) -> SfuOutcomeV {
    SfuOutcomeV {
        detection: v.errors.len() > 0,
        detection_ms: v.detection_time,
        errors: v.errors,
        metrics: SfuMetricsV {
            unauthorized_tracks: v.unauthorized_tracks,
            hijacked_tracks: 0,
            impersonation_attempts: if v.errors.contains(ViolationCode::Impersonation) {
                1
            } else {
                0
            },
            key_leak_attempts: v.key_leak_attempts,
            duplicate_routes: v.duplicate_routes,
            replayed_tracks: v.replayed_tracks,
            simulcast_spoofs: v.simulcast_spoofs,
            bitrate_abuse_events: v.bitrate_abuse_events,
            accepted_tracks: v.routes.len() as int,
            rejected_tracks: v.unauthorized_tracks,
            false_positive_blocks: 0,
            false_negative_leaks: 0,
            max_extra_latency_ms: match v.detection_time {
                Some(t) => t,
                None => 0,
            },
            affected_participant_count: v.affected.len() as int,
        },
    }
}

/// The logical times of a timeline, in declaration order.
pub open spec fn sfu_times(s: SfuScenario) -> Seq<i64> {
    s.timeline@.map_values(|e: SfuEvent| e.t)
}

/// The timeline in replay order.
pub open spec fn sfu_ordered_events(s: SfuScenario, order: Seq<usize>) -> Seq<SfuEvent> {
    Seq::new(order.len(), |i: int| s.timeline@[order[i] as int])
}

/// Every value the scenario carries is within the engine's bounds.
pub open spec fn sfu_scenario_bounded(s: SfuScenario) -> bool {
    &&& s.timeline@.len() <= MAX_EVENTS
    &&& forall|i: int| 0 <= i < s.timeline@.len() ==> -VAL_BOUND <= (#[trigger] s.timeline@[i]).t <= VAL_BOUND
}

/// A whole SFU replay under the replay order `order`.
pub open spec fn spec_sfu_simulate(s: SfuScenario, order: Seq<usize>) -> SfuOutcomeV {
    spec_sfu_finish(spec_sfu_run(init_sfu_state(), sfu_ordered_events(s, order), s.participants@))
}


// ---------------------------------------------------------------------------
// The executable tracker.
// ---------------------------------------------------------------------------

/// The live state the SFU tracker owns during one scenario's replay.
pub struct SfuTracker {
    pub authed: Vec<String>,
    pub routes: Vec<(String, String)>,
    pub track_layers: Vec<(String, Vec<String>)>,
    pub affected: Vec<String>,
    pub key_leak_attempts: i64,
    pub unauthorized_tracks: i64,
    pub replayed_tracks: i64,
    pub duplicate_routes: i64,
    pub simulcast_spoofs: i64,
    pub bitrate_abuse_events: i64,
    pub detection_time: Option<i64>,
    pub errors: Vec<ViolationCode>,
}

/// The layer table as mathematical values.
pub open spec fn view_layers(layers: Vec<(String, Vec<String>)>) -> Seq<(String, Seq<String>)> {
    layers@.map_values(|p: (String, Vec<String>)| (p.0, p.1@))
}

impl View for SfuTracker {
    type V = SfuStateV;

    open spec fn view(&self) -> SfuStateV {
        SfuStateV {
            authed: self.authed@,
            routes: self.routes@,
            track_layers: view_layers(self.track_layers),
            affected: self.affected@,
            key_leak_attempts: self.key_leak_attempts as int,
            unauthorized_tracks: self.unauthorized_tracks as int,
            replayed_tracks: self.replayed_tracks as int,
            duplicate_routes: self.duplicate_routes as int,
            simulcast_spoofs: self.simulcast_spoofs as int,
            bitrate_abuse_events: self.bitrate_abuse_events as int,
            detection_time: opt_int(self.detection_time),
            errors: self.errors@,
        }
    }
}

fn str_in(list: &Vec<String>, s: &String) -> (r: bool)
    ensures
        r == sfu_contains_str(list@, *s),
{
    let n = list.len();
    for i in 0..n
        invariant
            n == list@.len(),
            forall|j: int| 0 <= j < i ==> (#[trigger] list@[j])@ != s@,
    {
        if list[i].eq(s) {
            return true;
        }
    }
    false
}

fn str_join(list: &mut Vec<String>, s: &String)
    ensures
        final(list)@ == sfu_insert_str(old(list)@, *s),
{
    if !str_in(list, s) {
        list.push(s.clone());
    }
}

fn route_present<V>(m: &Vec<(String, V)>, k: &String) -> (r: bool)
    ensures
        r == sfu_has_key(m@, *k),
{
    let n = m.len();
    for i in 0..n
        invariant
            n == m@.len(),
            forall|j: int| 0 <= j < i ==> (#[trigger] m@[j]).0@ != k@,
    {
        if m[i].0.eq(k) {
            return true;
        }
    }
    false
}

fn participant_index(ps: &Vec<Participant>, pid: &String) -> (r: Option<usize>)
    ensures
        r matches Some(i) ==> i as int == find_participant(ps@, *pid) && i < ps@.len(),
        r is None ==> find_participant(ps@, *pid) == -1,
{
    let n = ps.len();
    for i in 0..n
        invariant
            n == ps@.len(),
            forall|j: int| 0 <= j < i ==> (#[trigger] ps@[j]).id@ != pid@,
    {
        if ps[i].id.eq(pid) {
            proof {
                lemma_find_participant(ps@, *pid);
                if find_participant(ps@, *pid) != i as int {
                    assert(ps@[find_participant(ps@, *pid)].id@ == pid@);
                }
            }
            return Some(i);
        }
    }
    proof {
        lemma_find_participant(ps@, *pid);
        if find_participant(ps@, *pid) >= 0 {
            assert(ps@[find_participant(ps@, *pid)].id@ == pid@);
        }
    }
    None
}

fn any_layer_missing(requested: &Vec<String>, allowed: &Vec<String>) -> (r: bool)
    ensures
        r == some_layer_missing(requested@, allowed@),
{
    let n = requested.len();
    for i in 0..n
        invariant
            n == requested@.len(),
            forall|j: int| 0 <= j < i ==> sfu_contains_str(allowed@, #[trigger] requested@[j]),
    {
        if !str_in(allowed, &requested[i]) {
            return true;
        }
    }
    false
}

impl SfuTracker {
    /// One replay step; see `spec_sfu_step`.
    pub fn apply(&mut self, ev: &SfuEvent, participants: &Vec<Participant>)
        requires
            sfu_state_bounded(old(self)@, MAX_EVENTS as int - 1),
            -VAL_BOUND <= ev.t <= VAL_BOUND,
        ensures
            final(self)@ == spec_sfu_step(old(self)@, *ev, participants@),
    {
        let ghost v0 = self@;
        match &ev.kind {
            SfuEventKind::Join { participant, token } => {
                if let Some(pid) = participant {
                    match participant_index(participants, pid) {
                        Some(pi) => {
                            match token {
                                Some(tok) => {
                                    if str_in(&participants[pi].authz_tokens, tok) {
                                        str_join(&mut self.authed, pid);
                                    } else {
                                        push_err(&mut self.errors, ViolationCode::Impersonation);
                                    }
                                },
                                None => {
                                    push_err(&mut self.errors, ViolationCode::Impersonation);
                                },
                            }
                        },
                        None => {
                            push_err(&mut self.errors, ViolationCode::Impersonation);
                        },
                    }
                }
            },
            SfuEventKind::Publish { participant, track_id, layers } => {
                match (participant, track_id) {
                    (Some(pid), Some(tid)) => {
                        if !str_in(&self.authed, pid) {
                            push_err(&mut self.errors, ViolationCode::UnauthorizedSubscribe);
                            self.unauthorized_tracks = self.unauthorized_tracks + 1;
                        } else {
                            self.routes.push((tid.clone(), pid.clone()));
                            let ls = match layers {
                                Some(l) => crate::desync::clone_strings(l),
                                None => Vec::new(),
                            };
                            self.track_layers.push((tid.clone(), ls));
                        }
                    },
                    _ => {
                        push_err(&mut self.errors, ViolationCode::UnauthorizedSubscribe);
                        self.unauthorized_tracks = self.unauthorized_tracks + 1;
                    },
                }
            },
            SfuEventKind::Subscribe { participant, track_id } => {
                match (participant, track_id) {
                    (Some(pid), Some(tid)) => {
                        if !str_in(&self.authed, pid) || !route_present(&self.routes, tid) {
                            push_err(&mut self.errors, ViolationCode::UnauthorizedSubscribe);
                            self.unauthorized_tracks = self.unauthorized_tracks + 1;
                        }
                    },
                    _ => {
                        push_err(&mut self.errors, ViolationCode::UnauthorizedSubscribe);
                        self.unauthorized_tracks = self.unauthorized_tracks + 1;
                    },
                }
            },
            SfuEventKind::GhostSubscribe { participant } => {
                if let Some(pid) = participant {
                    push_err(&mut self.errors, ViolationCode::UnauthorizedSubscribe);
                    self.unauthorized_tracks = self.unauthorized_tracks + 1;
                    str_join(&mut self.affected, pid);
                }
            },
            SfuEventKind::Impersonate { participant } => {
                if let Some(pid) = participant {
                    push_err(&mut self.errors, ViolationCode::Impersonation);
                    str_join(&mut self.affected, pid);
                }
            },
            SfuEventKind::ReplayTrack { track_id } => {
                if let Some(tid) = track_id {
                    if route_present(&self.routes, tid) {
                        push_err(&mut self.errors, ViolationCode::ReplayTrack);
                        self.replayed_tracks = self.replayed_tracks + 1;
                    }
                }
            },
            SfuEventKind::DupTrack { track_id } => {
                if let Some(tid) = track_id {
                    if route_present(&self.routes, tid) {
                        push_err(&mut self.errors, ViolationCode::DuplicateRoute);
                        self.duplicate_routes = self.duplicate_routes + 1;
                    }
                }
            },
            SfuEventKind::SimulcastSpoof { track_id, requested_layers } => {
                if let Some(tid) = track_id {
                    let empty_req: Vec<String> = Vec::new();
                    let requested: &Vec<String> = match requested_layers {
                        Some(r) => r,
                        None => &empty_req,
                    };
                    let li = lookup_layers(&self.track_layers, tid);
                    let empty_allowed: Vec<String> = Vec::new();
                    let allowed: &Vec<String> = match li {
                        Some(i) => &self.track_layers[i].1,
                        None => &empty_allowed,
                    };
                    if any_layer_missing(requested, allowed) {
                        push_err(&mut self.errors, ViolationCode::SimulcastSpoof);
                        self.simulcast_spoofs = self.simulcast_spoofs + 1;
                    }
                }
            },
            SfuEventKind::BitrateAbuse => {
                push_err(&mut self.errors, ViolationCode::BitrateAbuse);
                self.bitrate_abuse_events = self.bitrate_abuse_events + 1;
            },
            SfuEventKind::KeyRotationSkip => {
                push_err(&mut self.errors, ViolationCode::StaleKeyReuse);
                self.key_leak_attempts = self.key_leak_attempts + 1;
            },
            SfuEventKind::StaleKeyReuse => {
                push_err(&mut self.errors, ViolationCode::StaleKeyReuse);
                self.key_leak_attempts = self.key_leak_attempts + 1;
            },
            SfuEventKind::StealKey => {
                push_err(&mut self.errors, ViolationCode::KeyLeakAttempt);
                self.key_leak_attempts = self.key_leak_attempts + 1;
            },
            SfuEventKind::Other(_) => {},
        }
        if self.errors.len() > 0 && self.detection_time.is_none() {
            self.detection_time = Some(ev.t);
        }
        proof {
            assert(self@ =~~= spec_sfu_step(v0, *ev, participants@));
        }
    }
}

fn lookup_layers(m: &Vec<(String, Vec<String>)>, k: &String) -> (r: Option<usize>)
    ensures
        r matches Some(i) ==> i as int == crate::desync::find_key(view_layers(*m), *k) && i
            < m@.len(),
        r is None ==> crate::desync::find_key(view_layers(*m), *k) == -1,
{
    let ghost mv = view_layers(*m);
    let n = m.len();
    for i in 0..n
        invariant
            n == m@.len() == mv.len(),
            mv == view_layers(*m),
            forall|j: int| 0 <= j < n ==> mv[j] == (m@[j].0, m@[j].1@),
            forall|j: int| 0 <= j < i ==> (#[trigger] mv[j]).0@ != k@,
    {
        if m[i].0.eq(k) {
            proof {
                crate::desync::lemma_find_key_at(mv, *k, i as int);
            }
            return Some(i);
        }
    }
    proof {
        crate::desync::lemma_find_key_absent(mv, *k);
    }
    None
}


/// Whether an SFU scenario's values are within the engine's machine
/// limits, so that `simulate` accepts it; see `sfu_scenario_bounded`.
pub fn sfu_scenario_within_bounds(s: &SfuScenario) -> (b: bool)
    ensures
        b == sfu_scenario_bounded(*s),
{
    if s.timeline.len() > MAX_EVENTS {
        return false;
    }
    let n = s.timeline.len();
    for i in 0..n
        invariant
            n == s.timeline@.len(),
            forall|j: int|
                0 <= j < i ==> -VAL_BOUND <= (#[trigger] s.timeline@[j]).t <= VAL_BOUND,
    {
        if !(-VAL_BOUND <= s.timeline[i].t && s.timeline[i].t <= VAL_BOUND) {
            return false;
        }
    }
    true
}

/// Replay one SFU scenario: order the timeline deterministically, fold it
/// through the tracker, and report. The result is exactly the mathematical
/// replay `spec_sfu_simulate` under the scenario's (unique) replay order;
/// no SFU event is fatal.
pub fn simulate(s: &SfuScenario) -> (r: SfuOutcome)
    requires
        sfu_scenario_bounded(*s),
    ensures
        exists|order: Seq<usize>|
            #![auto]
            is_replay_order(sfu_times(*s), order) && r@ == spec_sfu_simulate(*s, order),
{
    let n = s.timeline.len();
    let mut times: Vec<i64> = Vec::new();
    proof {
        assert(times@ =~= sfu_times(*s).take(0));
    }
    for i in 0..n
        invariant
            n == s.timeline@.len(),
            times@ == sfu_times(*s).take(i as int),
    {
        times.push(s.timeline[i].t);
        proof {
            assert(times@ =~= sfu_times(*s).take(i as int + 1));
        }
    }
    proof {
        assert(sfu_times(*s).take(n as int) =~= sfu_times(*s));
    }
    let order = schedule(&times);
    let ghost events = sfu_ordered_events(*s, order@);
    let mut tracker = SfuTracker {
        authed: Vec::new(),
        routes: Vec::new(),
        track_layers: Vec::new(),
        affected: Vec::new(),
        key_leak_attempts: 0,
        unauthorized_tracks: 0,
        replayed_tracks: 0,
        duplicate_routes: 0,
        simulcast_spoofs: 0,
        bitrate_abuse_events: 0,
        detection_time: None,
        errors: Vec::new(),
    };
    proof {
        assert(tracker@ =~~= init_sfu_state());
        assert(events.take(0) =~= Seq::<SfuEvent>::empty());
    }
    let m = order.len();
    for k in 0..m
        invariant
            sfu_scenario_bounded(*s),
            m == n == s.timeline@.len(),
            order@.len() == m,
            is_replay_order(sfu_times(*s), order@),
            events == sfu_ordered_events(*s, order@),
            events.len() == m,
            tracker@ == spec_sfu_run(init_sfu_state(), events.take(k as int), s.participants@),
    {
        let idx = order[k];
        proof {
            assert(order@[k as int] < s.timeline@.len());
            assert(events[k as int] == s.timeline@[idx as int]);
            assert forall|i: int|
                0 <= i < events.take(k as int).len() implies -VAL_BOUND <= (
            #[trigger] events.take(k as int)[i]).t <= VAL_BOUND by {
                assert(events.take(k as int)[i] == events[i]);
                assert(events[i] == s.timeline@[order@[i] as int]);
            }
            lemma_sfu_run_bounded(init_sfu_state(), events.take(k as int), s.participants@, 0);
        }
        tracker.apply(&s.timeline[idx], &s.participants);
        proof {
            lemma_sfu_run_snoc(init_sfu_state(), events.take(k as int + 1), s.participants@);
            assert(events.take(k as int + 1).drop_last() =~= events.take(k as int));
            assert(events.take(k as int + 1).last() == events[k as int]);
        }
    }
    proof {
        assert(events.take(m as int) =~= events);
        assert forall|i: int| 0 <= i < events.len() implies -VAL_BOUND <= (
        #[trigger] events[i]).t <= VAL_BOUND by {
            assert(events[i] == s.timeline@[order@[i] as int]);
        }
        lemma_sfu_run_bounded(init_sfu_state(), events, s.participants@, 0);
    }
    let detection = tracker.errors.len() > 0;
    let impersonation = if contains(&tracker.errors, ViolationCode::Impersonation) {
        1
    } else {
        0
    };
    let latency = match tracker.detection_time {
        Some(t) => t,
        None => 0,
    };
    let r = SfuOutcome {
        detection,
        detection_ms: tracker.detection_time,
        metrics: SfuMetrics {
            unauthorized_tracks: tracker.unauthorized_tracks,
            hijacked_tracks: 0,
            impersonation_attempts: impersonation,
            key_leak_attempts: tracker.key_leak_attempts,
            duplicate_routes: tracker.duplicate_routes,
            replayed_tracks: tracker.replayed_tracks,
            simulcast_spoofs: tracker.simulcast_spoofs,
            bitrate_abuse_events: tracker.bitrate_abuse_events,
            accepted_tracks: tracker.routes.len() as i64,
            rejected_tracks: tracker.unauthorized_tracks,
            false_positive_blocks: 0,
            false_negative_leaks: 0,
            max_extra_latency_ms: latency,
            affected_participant_count: tracker.affected.len() as i64,
        },
        errors: tracker.errors,
    };
    proof {
        assert(r@ =~~= spec_sfu_simulate(*s, order@));
    }
    r
}

/// One named reason an SFU scenario failed its expectations.
#[derive(Clone, Copy, Debug, PartialEq, Eq, Structural)]
pub enum SfuFailure {
    DetectionMismatch,
    MissingDetectionMs,
    DetectionSla,
    UnexpectedDetectionMs,
    MissingExpectedErrors,
    HijackedTracksExceeded,
    UnauthorizedTracksExceeded,
    KeyLeakExceeded,
    LatencyExceeded,
    FalsePositiveBlocksExceeded,
    FalseNegativeLeaksExceeded,
    ResidualRouting,
}

impl SfuFailure {
    /// The wire name of the reason, as it appears in result files.
    pub fn as_str(&self) -> (r: &'static str)
        ensures
            r@ == self.name(),
    {
        proof {
            reveal_strlit("detection_mismatch");
            reveal_strlit("missing_detection_ms");
            reveal_strlit("detection_sla");
            reveal_strlit("unexpected_detection_ms");
            reveal_strlit("missing_expected_errors");
            reveal_strlit("hijacked_tracks_exceeded");
            reveal_strlit("unauthorized_tracks_exceeded");
            reveal_strlit("key_leak_exceeded");
            reveal_strlit("latency_exceeded");
            reveal_strlit("false_positive_blocks_exceeded");
            reveal_strlit("false_negative_leaks_exceeded");
            reveal_strlit("residual_routing");
        }
        match self {
            SfuFailure::DetectionMismatch => "detection_mismatch",
            SfuFailure::MissingDetectionMs => "missing_detection_ms",
            SfuFailure::DetectionSla => "detection_sla",
            SfuFailure::UnexpectedDetectionMs => "unexpected_detection_ms",
            SfuFailure::MissingExpectedErrors => "missing_expected_errors",
            SfuFailure::HijackedTracksExceeded => "hijacked_tracks_exceeded",
            SfuFailure::UnauthorizedTracksExceeded => "unauthorized_tracks_exceeded",
            SfuFailure::KeyLeakExceeded => "key_leak_exceeded",
            SfuFailure::LatencyExceeded => "latency_exceeded",
            SfuFailure::FalsePositiveBlocksExceeded => "false_positive_blocks_exceeded",
            SfuFailure::FalseNegativeLeaksExceeded => "false_negative_leaks_exceeded",
            SfuFailure::ResidualRouting => "residual_routing",
        }
    }

    /// The wire name as a mathematical character sequence.
    pub open spec fn name(self) -> Seq<char> {
        match self {
            SfuFailure::DetectionMismatch => "detection_mismatch"@,
            SfuFailure::MissingDetectionMs => "missing_detection_ms"@,
            SfuFailure::DetectionSla => "detection_sla"@,
            SfuFailure::UnexpectedDetectionMs => "unexpected_detection_ms"@,
            SfuFailure::MissingExpectedErrors => "missing_expected_errors"@,
            SfuFailure::HijackedTracksExceeded => "hijacked_tracks_exceeded"@,
            SfuFailure::UnauthorizedTracksExceeded => "unauthorized_tracks_exceeded"@,
            SfuFailure::KeyLeakExceeded => "key_leak_exceeded"@,
            SfuFailure::LatencyExceeded => "latency_exceeded"@,
            SfuFailure::FalsePositiveBlocksExceeded => "false_positive_blocks_exceeded"@,
            SfuFailure::FalseNegativeLeaksExceeded => "false_negative_leaks_exceeded"@,
            SfuFailure::ResidualRouting => "residual_routing"@,
        }
    }
}

/// A required violation code the replay never produced.
pub open spec fn sfu_missing_errors(exp_codes: Seq<ViolationCode>, errors: Seq<ViolationCode>) -> bool {
    exists|i: int| 0 <= i < exp_codes.len() && !errors.contains(#[trigger] exp_codes[i])
}

/// The failing detection checks of an SFU outcome.
pub open spec fn spec_sfu_eval_detection(exp: SfuExpectations, res: SfuOutcomeV) -> Seq<SfuFailure> {
    (if res.detection != exp.should_detect {
        seq![SfuFailure::DetectionMismatch]
    } else {
        Seq::empty()
    }) + if exp.should_detect {
        match res.detection_ms {
            None => seq![SfuFailure::MissingDetectionMs],
            Some(ms) => if exp.max_detection_ms > 0 && ms > exp.max_detection_ms {
                seq![SfuFailure::DetectionSla]
            } else {
                Seq::empty()
            },
        }
    } else {
        match res.detection_ms {
            Some(ms) => if ms != 0 {
                seq![SfuFailure::UnexpectedDetectionMs]
            } else {
                Seq::empty()
            },
            None => Seq::empty(),
        }
    }
}

/// The failing containment check and the first ceilings of an SFU
/// outcome.
pub open spec fn spec_sfu_eval_first(exp: SfuExpectations, res: SfuOutcomeV) -> Seq<SfuFailure> {
    (if sfu_missing_errors(exp.expected_errors@, res.errors) {
        seq![SfuFailure::MissingExpectedErrors]
    } else {
        Seq::<SfuFailure>::empty()
    }) + (if res.metrics.hijacked_tracks > exp.max_hijacked_tracks {
        seq![SfuFailure::HijackedTracksExceeded]
    } else {
        Seq::<SfuFailure>::empty()
    }) + (if res.metrics.unauthorized_tracks > exp.max_unauthorized_tracks {
        seq![SfuFailure::UnauthorizedTracksExceeded]
    } else {
        Seq::<SfuFailure>::empty()
    }) + (if res.metrics.key_leak_attempts > exp.max_key_leak_attempts {
        seq![SfuFailure::KeyLeakExceeded]
    } else {
        Seq::<SfuFailure>::empty()
    })
}

/// The remaining failing ceilings of an SFU outcome.
pub open spec fn spec_sfu_eval_rest(exp: SfuExpectations, res: SfuOutcomeV) -> Seq<SfuFailure> {
    (if res.metrics.max_extra_latency_ms > exp.max_extra_latency_ms {
        seq![SfuFailure::LatencyExceeded]
    } else {
        Seq::<SfuFailure>::empty()
    }) + (if res.metrics.false_positive_blocks > exp.max_false_positive_blocks {
        seq![SfuFailure::FalsePositiveBlocksExceeded]
    } else {
        Seq::<SfuFailure>::empty()
    }) + (if res.metrics.false_negative_leaks > exp.max_false_negative_leaks {
        seq![SfuFailure::FalseNegativeLeaksExceeded]
    } else {
        Seq::<SfuFailure>::empty()
    }) + (if !exp.residual_routing_allowed && res.metrics.duplicate_routes > 0 {
        seq![SfuFailure::ResidualRouting]
    } else {
        Seq::<SfuFailure>::empty()
    })
}

/// The failing containment and ceiling checks of an SFU outcome.
pub open spec fn spec_sfu_eval_ceilings(exp: SfuExpectations, res: SfuOutcomeV) -> Seq<SfuFailure> {
    spec_sfu_eval_first(exp, res) + spec_sfu_eval_rest(exp, res)
}

/// Every failing check of an SFU outcome against the scenario's
/// expectations, in a stable order.
pub open spec fn spec_sfu_eval(exp: SfuExpectations, res: SfuOutcomeV) -> Seq<SfuFailure> {
    spec_sfu_eval_detection(exp, res) + spec_sfu_eval_ceilings(exp, res)
}

fn sfu_eval_detection(exp: &SfuExpectations, res: &SfuOutcome, failures: &mut Vec<SfuFailure>)
    ensures
        final(failures)@ == old(failures)@ + spec_sfu_eval_detection(*exp, res@),
{
    let ghost f0 = failures@;
    if res.detection != exp.should_detect {
        failures.push(SfuFailure::DetectionMismatch);
    }
    if exp.should_detect {
        match res.detection_ms {
            None => {
                failures.push(SfuFailure::MissingDetectionMs);
            },
            Some(ms) => {
                if exp.max_detection_ms > 0 && ms > exp.max_detection_ms {
                    failures.push(SfuFailure::DetectionSla);
                }
            },
        }
    } else {
        if let Some(ms) = res.detection_ms {
            if ms != 0 {
                failures.push(SfuFailure::UnexpectedDetectionMs);
            }
        }
    }
    proof {
        assert(failures@ =~= f0 + spec_sfu_eval_detection(*exp, res@));
    }
}

fn sfu_eval_first(exp: &SfuExpectations, res: &SfuOutcome, failures: &mut Vec<SfuFailure>)
    ensures
        final(failures)@ == old(failures)@ + spec_sfu_eval_first(*exp, res@),
{
    let ghost f0 = failures@;
    let nc = exp.expected_errors.len();
    let mut missing = false;
    for i in 0..nc
        invariant
            nc == exp.expected_errors@.len(),
            missing == exists|j: int|
                0 <= j < i && !res.errors@.contains(#[trigger] exp.expected_errors@[j]),
            failures@ == f0,
    {
        if !contains(&res.errors, exp.expected_errors[i]) {
            missing = true;
        }
    }
    if missing {
        failures.push(SfuFailure::MissingExpectedErrors);
    }
    if res.metrics.hijacked_tracks > exp.max_hijacked_tracks {
        failures.push(SfuFailure::HijackedTracksExceeded);
    }
    if res.metrics.unauthorized_tracks > exp.max_unauthorized_tracks {
        failures.push(SfuFailure::UnauthorizedTracksExceeded);
    }
    if res.metrics.key_leak_attempts > exp.max_key_leak_attempts {
        failures.push(SfuFailure::KeyLeakExceeded);
    }
    proof {
        assert(failures@ =~= f0 + spec_sfu_eval_first(*exp, res@));
    }
}

fn sfu_eval_rest(exp: &SfuExpectations, res: &SfuOutcome, failures: &mut Vec<SfuFailure>)
    ensures
        final(failures)@ == old(failures)@ + spec_sfu_eval_rest(*exp, res@),
{
    let ghost f0 = failures@;
    if res.metrics.max_extra_latency_ms > exp.max_extra_latency_ms {
        failures.push(SfuFailure::LatencyExceeded);
    }
    if res.metrics.false_positive_blocks > exp.max_false_positive_blocks {
        failures.push(SfuFailure::FalsePositiveBlocksExceeded);
    }
    if res.metrics.false_negative_leaks > exp.max_false_negative_leaks {
        failures.push(SfuFailure::FalseNegativeLeaksExceeded);
    }
    if !exp.residual_routing_allowed && res.metrics.duplicate_routes > 0 {
        failures.push(SfuFailure::ResidualRouting);
    }
    proof {
        assert(failures@ =~= f0 + spec_sfu_eval_rest(*exp, res@));
    }
}

/// Evaluate an SFU outcome against the scenario's expectations: the status
/// is `Pass` exactly when no check fails, and the failure list is exactly
/// `spec_sfu_eval` of the outcome.
pub fn evaluate(exp: &SfuExpectations, res: &SfuOutcome) -> (r: (Status, Vec<SfuFailure>))
    ensures
        r.1@ == spec_sfu_eval(*exp, res@),
        r.0 == (if spec_sfu_eval(*exp, res@).len() == 0 {
            Status::Pass
        } else {
            Status::Fail
        }),
{
    let mut failures: Vec<SfuFailure> = Vec::new();
    sfu_eval_detection(exp, res, &mut failures);
    sfu_eval_first(exp, res, &mut failures);
    sfu_eval_rest(exp, res, &mut failures);
    proof {
        assert(failures@ =~= spec_sfu_eval(*exp, res@));
    }
    let status = if failures.len() == 0 {
        Status::Pass
    } else {
        Status::Fail
    };
    (status, failures)
}

/// If the scenario requires a violation code the replay never produced,
/// the evaluation fails and names the missing codes, regardless of every
/// other check.
pub proof fn lemma_sfu_missing_errors(exp: SfuExpectations, res: SfuOutcomeV)
    requires
        sfu_missing_errors(exp.expected_errors@, res.errors),
    ensures
        spec_sfu_eval(exp, res).contains(SfuFailure::MissingExpectedErrors),
        spec_sfu_eval(exp, res).len() > 0,
{
    let d = spec_sfu_eval_detection(exp, res);
    let c = spec_sfu_eval_ceilings(exp, res);
    assert(spec_sfu_eval_first(exp, res)[0] == SfuFailure::MissingExpectedErrors);
    assert(c[0] == SfuFailure::MissingExpectedErrors);
    assert(spec_sfu_eval(exp, res)[d.len() as int] == SfuFailure::MissingExpectedErrors);
}

} // verus!
