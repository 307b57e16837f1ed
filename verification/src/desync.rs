//! Device-desynchronization tracker.
//!
//! Replays a scenario's timeline through the live protocol state of a fleet
//! of devices: ratchet (DR) versions, logical clocks, state hashes, and the
//! messages in flight between them. It detects version rollback, duplicate
//! delivery, out-of-order delivery and clock skew, measures divergence (the
//! spread of DR versions across devices) after every event, and derives
//! detection and recovery latencies. The outcome is evaluated against the
//! scenario's declared expectations.
//!
//! The whole replay is specified as a mathematical fold (`spec_simulate`)
//! over the deterministically ordered timeline; `simulate` is proved to
//! return exactly that fold's outcome.

use vstd::prelude::*;

use crate::codes::Status;
use crate::codes::ViolationCode;
use crate::codes::contains;
use crate::codes::push_err;
use crate::codes::spec_push_err;
use crate::ratio::PPM_SCALE;
use crate::ratio::ratio_exceeds;
use crate::scheduler::is_replay_order;
use crate::scheduler::is_stable_permutation;
use crate::scheduler::lemma_replay_order_permuted;
use crate::scheduler::lemma_replay_order_unique;
use crate::scheduler::permuted_times;
use crate::scheduler::schedule;

verus! {

/// Bound on the magnitude of every time, version, clock and delta value a
/// scenario may carry; keeps the replay arithmetic inside `i64`.
pub const VAL_BOUND: i64 = 1_000_000_000_000;

/// Bound on the number of events in a timeline.
pub const MAX_EVENTS: usize = 1_000_000;

/// Bound on the number of devices in a scenario and on the length of an
/// event's target list.
pub const MAX_ENTITIES: usize = 1_000_000;

/// A device as declared by the scenario: its identity and initial state.
pub struct Device {
    pub device_id: String,
    pub dr_version: i64,
    pub clock_ms: i64,
    pub state_hash: Option<String>,
}

/// A device's live protocol state during replay.
pub struct DeviceState {
    pub dr_version: i64,
    pub clock_ms: i64,
    pub state_hash: Option<String>,
}

/// Mathematical value of a device's live state.
#[verifier::ext_equal]
pub ghost struct DeviceStateV {
    pub dr_version: int,
    pub clock_ms: int,
    pub state_hash: Option<String>,
}

impl View for DeviceState {
    type V = DeviceStateV;

    open spec fn view(&self) -> DeviceStateV {
        DeviceStateV {
            dr_version: self.dr_version as int,
            clock_ms: self.clock_ms as int,
            state_hash: self.state_hash,
        }
    }
}

/// A message in flight: who sent it, to whom, and what happened to it.
pub struct Message {
    pub sender: String,
    pub targets: Vec<String>,
    pub dr_version: i64,
    pub state_hash: Option<String>,
    pub send_time: i64,
    pub delivered: Vec<String>,
    pub dropped: Vec<String>,
    pub replay_count: i64,
    pub delivery_events: i64,
}

/// Mathematical value of an in-flight message.
#[verifier::ext_equal]
pub ghost struct MessageV {
    pub sender: String,
    pub targets: Seq<String>,
    pub dr_version: int,
    pub state_hash: Option<String>,
    pub send_time: int,
    pub delivered: Seq<String>,
    pub dropped: Seq<String>,
    pub replay_count: int,
    pub delivery_events: int,
}

impl View for Message {
    type V = MessageV;

    open spec fn view(&self) -> MessageV {
        MessageV {
            sender: self.sender,
            targets: self.targets@,
            dr_version: self.dr_version as int,
            state_hash: self.state_hash,
            send_time: self.send_time as int,
            delivered: self.delivered@,
            dropped: self.dropped@,
            replay_count: self.replay_count as int,
            delivery_events: self.delivery_events as int,
        }
    }
}

/// One timeline event, a tagged variant with a fixed schema per tag.
#[allow(inconsistent_fields)]
pub enum EventKind {
    SendMsg {
        msg_id: String,
        from: String,
        to: Vec<String>,
        dr_version: Option<i64>,
        state_hash: Option<String>,
    },
    RecvMsg {
        msg_id: String,
        device: String,
        apply_dr_version: Option<i64>,
        state_hash: Option<String>,
    },
    DropMsg { msg_id: String, targets: Option<Vec<String>> },
    ReplayMsg { msg_id: String, from: String, to: Vec<String>, dr_version: Option<i64> },
    BackupRestore { device: String, dr_version: i64, state_hash: Option<String> },
    ClockSkew { device: String, delta_ms: i64 },
    Resync { device: String, target_dr_version: i64, state_hash: Option<String> },
}

/// One timeline event at a logical time.
pub struct Event {
    pub t: i64,
    pub kind: EventKind,
}

/// A note the tracker records without treating it as a violation.
pub enum Note {
    /// A resync reduced divergence without clearing it.
    ResyncReducedDivergence { device: String },
}

impl Note {
    /// The note's text, as it appears in result files.
    pub fn message(&self) -> (r: String)
        ensures
            (self matches Note::ResyncReducedDivergence { device } ==> r@ == "resync on "@
                + device@ + " reduced divergence"@),
    {
        proof {
            reveal_strlit("resync on ");
            reveal_strlit(" reduced divergence");
        }
        match self {
            Note::ResyncReducedDivergence { device } => crate::text::concat3(
                "resync on ",
                device.as_str(),
                " reduced divergence",
            ),
        }
    }
}

/// A fatal corpus error: the event stream referred to an entity the
/// scenario never declared. It aborts the scenario's replay.
#[derive(Debug)]
pub enum SimError {
    UnknownDevice { device: String },
}

// ---------------------------------------------------------------------------
// Association lists keyed by identity strings.
// ---------------------------------------------------------------------------

/// First index whose key reads `k`, or -1 if no entry does.
pub open spec fn find_key<V>(m: Seq<(String, V)>, k: String) -> int
    decreases m.len(),
{
    if m.len() == 0 {
        -1
    } else if m[0].0@ == k@ {
        0
    } else {
        let rest = find_key(m.drop_first(), k);
        if rest == -1 {
            -1
        } else {
            rest + 1
        }
    }
}

/// Whether some entry's key reads `k`.
pub open spec fn has_key<V>(m: Seq<(String, V)>, k: String) -> bool {
    find_key(m, k) >= 0
}

pub proof fn lemma_find_key<V>(m: Seq<(String, V)>, k: String)
    ensures
        -1 <= find_key(m, k) < m.len(),
        find_key(m, k) == -1 ==> forall|i: int| 0 <= i < m.len() ==> (#[trigger] m[i].0)@ != k@,
        find_key(m, k) >= 0 ==> {
            &&& m[find_key(m, k)].0@ == k@
            &&& forall|i: int| 0 <= i < find_key(m, k) ==> (#[trigger] m[i].0)@ != k@
        },
    decreases m.len(),
{
    if m.len() > 0 && m[0].0@ != k@ {
        lemma_find_key(m.drop_first(), k);
        assert forall|i: int| 1 <= i < m.len() implies m.drop_first()[i - 1] == m[i] by {}
    }
}

/// Look a key up in an association list: the first entry whose key reads
/// `k`.
fn lookup<V>(m: &Vec<(String, V)>, k: &String) -> (r: Option<usize>)
    ensures
        r matches Some(i) ==> i < m@.len() && m@[i as int].0@ == k@ && forall|j: int|
            0 <= j < i ==> (#[trigger] m@[j].0)@ != k@,
        r is None ==> forall|j: int| 0 <= j < m@.len() ==> (#[trigger] m@[j].0)@ != k@,
{
    let n = m.len();
    for i in 0..n
        invariant
            n == m@.len(),
            forall|j: int| 0 <= j < i ==> (#[trigger] m@[j].0)@ != k@,
    {
        if m[i].0.eq(k) {
            return Some(i);
        }
    }
    None
}

/// Positional knowledge of a key pins `find_key` down.
pub proof fn lemma_find_key_at<V>(m: Seq<(String, V)>, k: String, i: int)
    requires
        0 <= i < m.len(),
        m[i].0@ == k@,
        forall|j: int| 0 <= j < i ==> (#[trigger] m[j].0)@ != k@,
    ensures
        find_key(m, k) == i,
{
    lemma_find_key(m, k);
    if find_key(m, k) == -1 {
        assert(m[i].0@ != k@);
    }
}

/// A key that no entry carries is not found.
pub proof fn lemma_find_key_absent<V>(m: Seq<(String, V)>, k: String)
    requires
        forall|j: int| 0 <= j < m.len() ==> (#[trigger] m[j].0)@ != k@,
    ensures
        find_key(m, k) == -1,
{
    lemma_find_key(m, k);
    if find_key(m, k) >= 0 {
        assert(m[find_key(m, k)].0@ != k@);
    }
}

/// Whether `list` holds a string reading `s`.
pub open spec fn spec_contains_str(list: Seq<String>, s: String) -> bool {
    exists|i: int| 0 <= i < list.len() && (#[trigger] list[i])@ == s@
}

fn contains_str(list: &Vec<String>, s: &String) -> (r: bool)
    ensures
        r == spec_contains_str(list@, *s),
{
    let n = list.len();
    for i in 0..n
        invariant
            n == list@.len(),
            forall|j: int| 0 <= j < i ==> (#[trigger] list@[j])@ != s@,
    {
        if list[i].eq(s) {
            return true;
        }
    }
    false
}

/// `list` with `s` appended unless a string reading the same is present:
/// the insertion of an element into a set of identities.
pub open spec fn spec_insert_str(list: Seq<String>, s: String) -> Seq<String> {
    if spec_contains_str(list, s) {
        list
    } else {
        list.push(s)
    }
}

fn insert_str(list: &mut Vec<String>, s: &String)
    ensures
        final(list)@ == spec_insert_str(old(list)@, *s),
{
    if !contains_str(list, s) {
        list.push(s.clone());
    }
}

// ---------------------------------------------------------------------------
// Fleet statistics.
// ---------------------------------------------------------------------------

/// Smallest DR version across the fleet; 0 for an empty fleet.
pub open spec fn spec_min_dr(devices: Seq<(String, DeviceStateV)>) -> int
    decreases devices.len(),
{
    if devices.len() == 0 {
        0
    } else if devices.len() == 1 {
        devices[0].1.dr_version
    } else {
        let rest = spec_min_dr(devices.drop_first());
        if devices[0].1.dr_version < rest {
            devices[0].1.dr_version
        } else {
            rest
        }
    }
}

/// Largest DR version across the fleet; 0 for an empty fleet.
pub open spec fn spec_max_dr(devices: Seq<(String, DeviceStateV)>) -> int
    decreases devices.len(),
{
    if devices.len() == 0 {
        0
    } else if devices.len() == 1 {
        devices[0].1.dr_version
    } else {
        let rest = spec_max_dr(devices.drop_first());
        if devices[0].1.dr_version > rest {
            devices[0].1.dr_version
        } else {
            rest
        }
    }
}

/// Divergence: the spread of DR versions across the fleet.
pub open spec fn spec_dr_delta(devices: Seq<(String, DeviceStateV)>) -> int {
    spec_max_dr(devices) - spec_min_dr(devices)
}

/// Smallest logical clock across the fleet; 0 for an empty fleet.
pub open spec fn spec_min_clock(devices: Seq<(String, DeviceStateV)>) -> int
    decreases devices.len(),
{
    if devices.len() == 0 {
        0
    } else if devices.len() == 1 {
        devices[0].1.clock_ms
    } else {
        let rest = spec_min_clock(devices.drop_first());
        if devices[0].1.clock_ms < rest {
            devices[0].1.clock_ms
        } else {
            rest
        }
    }
}

/// Largest logical clock across the fleet; 0 for an empty fleet.
pub open spec fn spec_max_clock(devices: Seq<(String, DeviceStateV)>) -> int
    decreases devices.len(),
{
    if devices.len() == 0 {
        0
    } else if devices.len() == 1 {
        devices[0].1.clock_ms
    } else {
        let rest = spec_max_clock(devices.drop_first());
        if devices[0].1.clock_ms > rest {
            devices[0].1.clock_ms
        } else {
            rest
        }
    }
}

/// Spread of logical clocks across the fleet; 0 for an empty fleet.
pub open spec fn spec_clock_range(devices: Seq<(String, DeviceStateV)>) -> int {
    if devices.len() == 0 {
        0
    } else {
        spec_max_clock(devices) - spec_min_clock(devices)
    }
}

/// How many devices hold a DR version other than `version`.
pub open spec fn spec_count_dr_ne(devices: Seq<(String, DeviceStateV)>, version: int) -> int
    decreases devices.len(),
{
    if devices.len() == 0 {
        0
    } else {
        (if devices[0].1.dr_version != version {
            1int
        } else {
            0int
        }) + spec_count_dr_ne(devices.drop_first(), version)
    }
}

/// How many devices sit away from the fleet's smallest DR version.
pub open spec fn spec_diverged_count(devices: Seq<(String, DeviceStateV)>) -> int {
    spec_count_dr_ne(devices, spec_min_dr(devices))
}

/// The diverged count lies between zero and the fleet size.
pub proof fn lemma_count_dr_ne(devices: Seq<(String, DeviceStateV)>, version: int)
    ensures
        0 <= spec_count_dr_ne(devices, version) <= devices.len(),
    decreases devices.len(),
{
    if devices.len() > 0 {
        lemma_count_dr_ne(devices.drop_first(), version);
    }
}

/// The extrema are reached and bound every device.
pub proof fn lemma_dr_stats(devices: Seq<(String, DeviceStateV)>)
    ensures
        forall|i: int| 0 <= i < devices.len() ==> spec_min_dr(devices) <= (#[trigger] devices[i]).1.dr_version,
        forall|i: int| 0 <= i < devices.len() ==> (#[trigger] devices[i]).1.dr_version <= spec_max_dr(devices),
        devices.len() > 0 ==> exists|i: int| 0 <= i < devices.len() && (#[trigger] devices[i]).1.dr_version == spec_min_dr(devices),
        devices.len() > 0 ==> exists|i: int| 0 <= i < devices.len() && (#[trigger] devices[i]).1.dr_version == spec_max_dr(devices),
        spec_dr_delta(devices) >= 0,
    decreases devices.len(),
{
    if devices.len() > 1 {
        lemma_dr_stats(devices.drop_first());
        assert forall|i: int| 1 <= i < devices.len() implies devices.drop_first()[i - 1] == devices[i] by {}
        let rest = devices.drop_first();
        if rest.len() > 0 {
            let wmin = choose|i: int| 0 <= i < rest.len() && (#[trigger] rest[i]).1.dr_version == spec_min_dr(rest);
            assert(devices[wmin + 1] == rest[wmin]);
            let wmax = choose|i: int| 0 <= i < rest.len() && (#[trigger] rest[i]).1.dr_version == spec_max_dr(rest);
            assert(devices[wmax + 1] == rest[wmax]);
        }
    }
}

// ---------------------------------------------------------------------------
// The replay transition system.
// ---------------------------------------------------------------------------

/// Mathematical value of the tracker's whole state during replay.
#[verifier::ext_equal]
pub ghost struct TrackerV {
    pub devices: Seq<(String, DeviceStateV)>,
    pub messages: Seq<(String, MessageV)>,
    pub detection_time: Option<int>,
    pub divergence_start: Option<int>,
    pub recovery_time: Option<int>,
    pub expected: int,
    pub out_of_order: int,
    pub dr_integral: int,
    pub dr_samples: int,
    pub max_dr_delta: int,
    pub max_diverged_count: int,
    pub max_clock_skew: int,
    pub skew_violations: int,
    pub recovery_attempts: int,
    pub successful_recoveries: int,
    pub failed_recoveries: int,
    pub max_rollback: int,
    pub errors: Seq<ViolationCode>,
    pub notes: Seq<Note>,
}

/// Record a violation; when a timestamp is given and no detection time is
/// set yet, detection starts there.
pub open spec fn spec_add_error(v: TrackerV, code: ViolationCode, at: Option<int>) -> TrackerV {
    TrackerV {
        errors: spec_push_err(v.errors, code),
        detection_time: if v.detection_time is None && at is Some {
            at
        } else {
            v.detection_time
        },
        ..v
    }
}

/// Every device's logical clock catches up to the event time.
pub open spec fn spec_bump_clocks(
    devices: Seq<(String, DeviceStateV)>,
    t: int,
) -> Seq<(String, DeviceStateV)> {
    devices.map_values(
        |p: (String, DeviceStateV)|
            (
                p.0,
                DeviceStateV {
                    clock_ms: if t > p.1.clock_ms {
                        t
                    } else {
                        p.1.clock_ms
                    },
                    ..p.1
                },
            ),
    )
}

/// A `send` event: the message enters flight (or counts as replayed if its
/// id is known), each target owes a delivery, and the sender moves to the
/// message's DR version, counting any rollback. A sender that the scenario
/// never declared is a fatal corpus error unless the event pins the
/// version itself.
pub open spec fn spec_send(
    v: TrackerV,
    t: int,
    msg_id: String,
    from: String,
    to: Seq<String>,
    dr_version_opt: Option<i64>,
    hash: Option<String>,
) -> Result<TrackerV, SimError> {
    let di = find_key(v.devices, from);
    if dr_version_opt is None && di == -1 {
        Err(SimError::UnknownDevice { device: from })
    } else {
        let dr_version = match dr_version_opt {
            Some(x) => x as int,
            None => v.devices[di].1.dr_version,
        };
        let mi = find_key(v.messages, msg_id);
        let messages1 = if mi == -1 {
            v.messages.push(
                (
                    msg_id,
                    MessageV {
                        sender: from,
                        targets: to,
                        dr_version: dr_version,
                        state_hash: hash,
                        send_time: t,
                        delivered: Seq::empty(),
                        dropped: Seq::empty(),
                        replay_count: 0,
                        delivery_events: 0,
                    },
                ),
            )
        } else {
            v.messages.update(
                mi,
                (
                    v.messages[mi].0,
                    MessageV { replay_count: v.messages[mi].1.replay_count + 1, ..v.messages[mi].1 },
                ),
            )
        };
        let v1 = TrackerV { messages: messages1, expected: v.expected + to.len(), ..v };
        if di >= 0 {
            let dev = v1.devices[di].1;
            let rollback = dev.dr_version - dr_version;
            let v2 = TrackerV {
                max_rollback: if dr_version < dev.dr_version && rollback > v1.max_rollback {
                    rollback
                } else {
                    v1.max_rollback
                },
                devices: v1.devices.update(
                    di,
                    (
                        v1.devices[di].0,
                        DeviceStateV {
                            dr_version: dr_version,
                            state_hash: if hash is Some {
                                hash
                            } else {
                                dev.state_hash
                            },
                            ..dev
                        },
                    ),
                ),
                ..v1
            };
            Ok(v2)
        } else {
            Ok(v1)
        }
    }
}

/// A `recv` event: a reference to an unknown message or device is a
/// violation, not a fatal error. A known delivery marks the target
/// delivered (flagging a duplicate), counts out-of-order arrival against
/// the message's send time, and applies any carried DR version (counting
/// rollback) and state hash.
pub open spec fn spec_recv(
    v: TrackerV,
    t: int,
    msg_id: String,
    device: String,
    apply_opt: Option<i64>,
    hash: Option<String>,
) -> Result<TrackerV, SimError> {
    let mi = find_key(v.messages, msg_id);
    let di = find_key(v.devices, device);
    let v1 = if mi == -1 || di == -1 {
        spec_add_error(v, ViolationCode::UnknownMessage, Some(t))
    } else {
        v
    };
    if mi >= 0 && di >= 0 {
        let msg = v1.messages[mi].1;
        let v2 = if spec_contains_str(msg.delivered, device) {
            spec_add_error(v1, ViolationCode::DuplicateDelivery, None)
        } else {
            v1
        };
        let v3 = TrackerV {
            out_of_order: if t < msg.send_time {
                v2.out_of_order + 1
            } else {
                v2.out_of_order
            },
            messages: v2.messages.update(
                mi,
                (
                    v2.messages[mi].0,
                    MessageV {
                        delivered: spec_insert_str(msg.delivered, device),
                        delivery_events: msg.delivery_events + 1,
                        ..msg
                    },
                ),
            ),
            ..v2
        };
        let dev = v3.devices[di].1;
        let v4 = match apply_opt {
            Some(apply) => TrackerV {
                max_rollback: if (apply as int) < dev.dr_version && dev.dr_version - apply
                    > v3.max_rollback {
                    dev.dr_version - apply
                } else {
                    v3.max_rollback
                },
                devices: v3.devices.update(
                    di,
                    (v3.devices[di].0, DeviceStateV { dr_version: apply as int, ..dev }),
                ),
                ..v3
            },
            None => v3,
        };
        let dev4 = v4.devices[di].1;
        let v5 = match hash {
            Some(h) => TrackerV {
                devices: v4.devices.update(
                    di,
                    (v4.devices[di].0, DeviceStateV { state_hash: Some(h), ..dev4 }),
                ),
                ..v4
            },
            None => v4,
        };
        Ok(v5)
    } else {
        Ok(v1)
    }
}

/// Every identity in `items` joins the set `set`.
pub open spec fn spec_insert_all(set: Seq<String>, items: Seq<String>) -> Seq<String>
    decreases items.len(),
{
    if items.len() == 0 {
        set
    } else {
        spec_insert_all(spec_insert_str(set, items[0]), items.drop_first())
    }
}

/// A `drop` event: an unknown message is a violation; otherwise the given
/// targets (or all of the message's targets) are marked dropped.
pub open spec fn spec_drop(
    v: TrackerV,
    t: int,
    msg_id: String,
    targets_opt: Option<Seq<String>>,
) -> Result<TrackerV, SimError> {
    let mi = find_key(v.messages, msg_id);
    if mi == -1 {
        Ok(spec_add_error(v, ViolationCode::UnknownMessage, Some(t)))
    } else {
        let msg = v.messages[mi].1;
        let target_list = match targets_opt {
            Some(ts) => ts,
            None => msg.targets,
        };
        Ok(
            TrackerV {
                messages: v.messages.update(
                    mi,
                    (v.messages[mi].0, MessageV { dropped: spec_insert_all(msg.dropped, target_list), ..msg }),
                ),
                ..v
            },
        )
    }
}

/// A `replay` event: the sender must be a declared device (else a fatal
/// corpus error). The replayed message enters flight or has its replay
/// count raised, each target owes a delivery, and the replay is always a
/// violation detected at this event's time.
pub open spec fn spec_replay(
    v: TrackerV,
    t: int,
    msg_id: String,
    from: String,
    to: Seq<String>,
    dr_version_opt: Option<i64>,
) -> Result<TrackerV, SimError> {
    let di = find_key(v.devices, from);
    if di == -1 {
        Err(SimError::UnknownDevice { device: from })
    } else {
        let dr_version = match dr_version_opt {
            Some(x) => x as int,
            None => v.devices[di].1.dr_version,
        };
        let mi = find_key(v.messages, msg_id);
        let messages1 = if mi == -1 {
            v.messages.push(
                (
                    msg_id,
                    MessageV {
                        sender: from,
                        targets: to,
                        dr_version: dr_version,
                        state_hash: None,
                        send_time: t,
                        delivered: Seq::empty(),
                        dropped: Seq::empty(),
                        replay_count: 1,
                        delivery_events: 0,
                    },
                ),
            )
        } else {
            v.messages.update(
                mi,
                (
                    v.messages[mi].0,
                    MessageV { replay_count: v.messages[mi].1.replay_count + 1, ..v.messages[mi].1 },
                ),
            )
        };
        let v1 = TrackerV { messages: messages1, expected: v.expected + to.len(), ..v };
        Ok(spec_add_error(v1, ViolationCode::ReplayInjected, Some(t)))
    }
}

/// A `backup_restore` event: the device must be declared. Restoring to a
/// version below the current one is an applied rollback — counted and
/// flagged — and the device then holds the restored version and hash.
pub open spec fn spec_backup_restore(
    v: TrackerV,
    t: int,
    device: String,
    dr_version: i64,
    hash: Option<String>,
) -> Result<TrackerV, SimError> {
    let di = find_key(v.devices, device);
    if di == -1 {
        Err(SimError::UnknownDevice { device: device })
    } else {
        let dev = v.devices[di].1;
        let v1 = if (dr_version as int) < dev.dr_version {
            let rollback = dev.dr_version - dr_version;
            spec_add_error(
                TrackerV {
                    max_rollback: if rollback > v.max_rollback {
                        rollback
                    } else {
                        v.max_rollback
                    },
                    ..v
                },
                ViolationCode::RollbackApplied,
                Some(t),
            )
        } else {
            v
        };
        Ok(
            TrackerV {
                devices: v1.devices.update(
                    di,
                    (
                        v1.devices[di].0,
                        DeviceStateV {
                            dr_version: dr_version as int,
                            state_hash: if hash is Some {
                                hash
                            } else {
                                dev.state_hash
                            },
                            ..dev
                        },
                    ),
                ),
                ..v1
            },
        )
    }
}

/// A `clock_skew` event: the device must be declared. Its clock shifts by
/// the delta; if the widest clock spread seen so far then exceeds the
/// scenario's ceiling, a skew violation is recorded.
pub open spec fn spec_clock_skew(
    v: TrackerV,
    t: int,
    device: String,
    delta_ms: i64,
    skew_limit: int,
) -> Result<TrackerV, SimError> {
    let di = find_key(v.devices, device);
    if di == -1 {
        Err(SimError::UnknownDevice { device: device })
    } else {
        let dev = v.devices[di].1;
        let devices1 = v.devices.update(
            di,
            (v.devices[di].0, DeviceStateV { clock_ms: dev.clock_ms + delta_ms, ..dev }),
        );
        let cr = spec_clock_range(devices1);
        let mcs = if cr > v.max_clock_skew {
            cr
        } else {
            v.max_clock_skew
        };
        let v1 = TrackerV { devices: devices1, max_clock_skew: mcs, ..v };
        if mcs > skew_limit {
            Ok(
                spec_add_error(
                    TrackerV { skew_violations: v1.skew_violations + 1, ..v1 },
                    ViolationCode::ClockSkewViolation,
                    Some(t),
                ),
            )
        } else {
            Ok(v1)
        }
    }
}

/// A `resync` event: the device must be declared. The resync counts as a
/// recovery attempt; moving below the current version counts as rollback.
/// It succeeds if divergence clears, is noted if divergence shrinks, and
/// fails otherwise.
pub open spec fn spec_resync(
    v: TrackerV,
    t: int,
    device: String,
    target_dr_version: i64,
    hash: Option<String>,
) -> Result<TrackerV, SimError> {
    let di = find_key(v.devices, device);
    if di == -1 {
        Err(SimError::UnknownDevice { device: device })
    } else {
        let before_delta = spec_dr_delta(v.devices);
        let dev = v.devices[di].1;
        let rollback = dev.dr_version - target_dr_version;
        let v1 = TrackerV {
            recovery_attempts: v.recovery_attempts + 1,
            max_rollback: if (target_dr_version as int) < dev.dr_version && rollback
                > v.max_rollback {
                rollback
            } else {
                v.max_rollback
            },
            devices: v.devices.update(
                di,
                (
                    v.devices[di].0,
                    DeviceStateV {
                        dr_version: target_dr_version as int,
                        state_hash: if hash is Some {
                            hash
                        } else {
                            dev.state_hash
                        },
                        ..dev
                    },
                ),
            ),
            ..v
        };
        let after_delta = spec_dr_delta(v1.devices);
        if after_delta == 0 {
            Ok(TrackerV { successful_recoveries: v1.successful_recoveries + 1, ..v1 })
        } else if after_delta < before_delta {
            Ok(TrackerV { notes: v1.notes.push(Note::ResyncReducedDivergence { device: device }), ..v1 })
        } else {
            Ok(TrackerV { failed_recoveries: v1.failed_recoveries + 1, ..v1 })
        }
    }
}

/// The sampling that closes every step: divergence is re-measured and
/// integrated, divergence onset and recovery times latch, and the widest
/// spreads seen so far are kept.
pub open spec fn spec_post_step(v: TrackerV, t: int) -> TrackerV {
    let delta = spec_dr_delta(v.devices);
    let active = delta > 0;
    let v1 = TrackerV {
        dr_integral: v.dr_integral + delta,
        dr_samples: v.dr_samples + 1,
        max_dr_delta: if delta > v.max_dr_delta {
            delta
        } else {
            v.max_dr_delta
        },
        ..v
    };
    let v2 = if active && v1.divergence_start is None {
        TrackerV {
            divergence_start: Some(t),
            detection_time: if v1.detection_time is None {
                Some(t)
            } else {
                v1.detection_time
            },
            ..v1
        }
    } else {
        v1
    };
    let v3 = if active && !v2.errors.contains(ViolationCode::DivergenceDetected) {
        TrackerV { errors: v2.errors.push(ViolationCode::DivergenceDetected), ..v2 }
    } else {
        v2
    };
    let v4 = if !active && v3.divergence_start is Some && v3.recovery_time is None {
        TrackerV { recovery_time: Some(t), ..v3 }
    } else {
        v3
    };
    let diverged = spec_diverged_count(v4.devices);
    let cr = spec_clock_range(v4.devices);
    TrackerV {
        max_diverged_count: if diverged > v4.max_diverged_count {
            diverged
        } else {
            v4.max_diverged_count
        },
        max_clock_skew: if cr > v4.max_clock_skew {
            cr
        } else {
            v4.max_clock_skew
        },
        ..v4
    }
}

/// One full replay step: clocks catch up to the event time, the event is
/// applied, and the tracker is re-sampled.
pub open spec fn spec_step(v: TrackerV, ev: Event, skew_limit: int) -> Result<TrackerV, SimError> {
    let vb = TrackerV { devices: spec_bump_clocks(v.devices, ev.t as int), ..v };
    let r = match ev.kind {
        EventKind::SendMsg { msg_id, from, to, dr_version, state_hash } => spec_send(
            vb,
            ev.t as int,
            msg_id,
            from,
            to@,
            dr_version,
            state_hash,
        ),
        EventKind::RecvMsg { msg_id, device, apply_dr_version, state_hash } => spec_recv(
            vb,
            ev.t as int,
            msg_id,
            device,
            apply_dr_version,
            state_hash,
        ),
        EventKind::DropMsg { msg_id, targets } => spec_drop(
            vb,
            ev.t as int,
            msg_id,
            match targets {
                Some(ts) => Some(ts@),
                None => None,
            },
        ),
        EventKind::ReplayMsg { msg_id, from, to, dr_version } => spec_replay(
            vb,
            ev.t as int,
            msg_id,
            from,
            to@,
            dr_version,
        ),
        EventKind::BackupRestore { device, dr_version, state_hash } => spec_backup_restore(
            vb,
            ev.t as int,
            device,
            dr_version,
            state_hash,
        ),
        EventKind::ClockSkew { device, delta_ms } => spec_clock_skew(
            vb,
            ev.t as int,
            device,
            delta_ms,
            skew_limit,
        ),
        EventKind::Resync { device, target_dr_version, state_hash } => spec_resync(
            vb,
            ev.t as int,
            device,
            target_dr_version,
            state_hash,
        ),
    };
    match r {
        Ok(v2) => Ok(spec_post_step(v2, ev.t as int)),
        Err(e) => Err(e),
    }
}

/// Fold of `spec_step` over an event sequence; the first fatal corpus
/// error aborts the fold.
pub open spec fn spec_run_steps(v: TrackerV, events: Seq<Event>, skew_limit: int) -> Result<
    TrackerV,
    SimError,
>
    decreases events.len(),
{
    if events.len() == 0 {
        Ok(v)
    } else {
        match spec_step(v, events[0], skew_limit) {
            Ok(v1) => spec_run_steps(v1, events.drop_first(), skew_limit),
            Err(e) => Err(e),
        }
    }
}

/// A replay fold splits at any point: run the first `k` events, then the
/// rest from where they left off.
pub proof fn lemma_run_decompose(v: TrackerV, events: Seq<Event>, skew_limit: int, k: int)
    requires
        0 <= k <= events.len(),
    ensures
        spec_run_steps(v, events, skew_limit) == match spec_run_steps(v, events.take(k), skew_limit) {
            Ok(v1) => spec_run_steps(v1, events.skip(k), skew_limit),
            Err(e) => Err::<TrackerV, SimError>(e),
        },
    decreases k,
{
    if k == 0 {
        assert(events.take(0).len() == 0);
        assert(events.skip(0) =~= events);
    } else {
        assert(events.take(k)[0] == events[0]);
        match spec_step(v, events[0], skew_limit) {
            Ok(v1) => {
                lemma_run_decompose(v1, events.drop_first(), skew_limit, k - 1);
                assert(events.take(k).drop_first() =~= events.drop_first().take(k - 1));
                assert(events.skip(k) =~= events.drop_first().skip(k - 1));
            },
            Err(e) => {},
        }
    }
}

/// The clock extrema are reached and bound every device.
pub proof fn lemma_clock_stats(devices: Seq<(String, DeviceStateV)>)
    ensures
        forall|i: int| 0 <= i < devices.len() ==> spec_min_clock(devices) <= (#[trigger] devices[i]).1.clock_ms,
        forall|i: int| 0 <= i < devices.len() ==> (#[trigger] devices[i]).1.clock_ms <= spec_max_clock(devices),
        spec_clock_range(devices) >= 0,
    decreases devices.len(),
{
    if devices.len() > 1 {
        lemma_clock_stats(devices.drop_first());
        assert forall|i: int| 1 <= i < devices.len() implies devices.drop_first()[i - 1] == devices[i] by {}
    }
}

/// Smallest and largest DR version across the fleet, and their spread.
pub fn current_dr_stats(devices: &Vec<(String, DeviceState)>) -> (r: (i64, i64, i64))
    requires
        forall|i: int|
            0 <= i < devices@.len() ==> -VAL_BOUND <= (#[trigger] devices@[i]).1.dr_version <= VAL_BOUND,
    ensures
        r.0 == spec_min_dr(view_devices(*devices)),
        r.1 == spec_max_dr(view_devices(*devices)),
        r.2 == spec_dr_delta(view_devices(*devices)),
{
    let ghost dv = view_devices(*devices);
    let n = devices.len();
    if n == 0 {
        return (0, 0, 0);
    }
    let mut min = devices[0].1.dr_version;
    let mut max = min;
    proof {
        lemma_dr_stats(dv);
    }
    for i in 1..n
        invariant
            n == dv.len() == devices@.len(),
            1 <= i <= n,
            forall|j: int| 0 <= j < n ==> -VAL_BOUND <= (#[trigger] dv[j]).1.dr_version <= VAL_BOUND,
            forall|j: int| 0 <= j < n ==> dv[j] == (devices@[j].0, devices@[j].1@),
            spec_min_dr(dv) == if i < n {
                let rest = spec_min_dr(dv.skip(i as int));
                if min < rest {
                    min as int
                } else {
                    rest
                }
            } else {
                min as int
            },
            spec_max_dr(dv) == if i < n {
                let rest = spec_max_dr(dv.skip(i as int));
                if max > rest {
                    max as int
                } else {
                    rest
                }
            } else {
                max as int
            },
            -VAL_BOUND <= min <= VAL_BOUND,
            -VAL_BOUND <= max <= VAL_BOUND,
    {
        proof {
            assert(dv.skip(i as int)[0] == dv[i as int]);
            if i + 1 < n {
                assert(dv.skip(i as int).drop_first() =~= dv.skip(i as int + 1));
            }
        }
        let d = devices[i].1.dr_version;
        if d < min {
            min = d;
        }
        if d > max {
            max = d;
        }
    }
    (min, max, max - min)
}

/// The fleet's devices as mathematical values.
pub open spec fn view_devices(devices: Vec<(String, DeviceState)>) -> Seq<(String, DeviceStateV)> {
    devices@.map_values(|p: (String, DeviceState)| (p.0, p.1@))
}

/// The messages in flight as mathematical values.
pub open spec fn view_messages(messages: Vec<(String, Message)>) -> Seq<(String, MessageV)> {
    messages@.map_values(|p: (String, Message)| (p.0, p.1@))
}

/// Spread of logical clocks across the fleet.
pub fn clock_range(devices: &Vec<(String, DeviceState)>, clock_bound: i64) -> (r: i64)
    requires
        0 <= clock_bound <= 2_000_000_000_000_000_000,
        forall|i: int|
            0 <= i < devices@.len() ==> -clock_bound <= (#[trigger] devices@[i]).1.clock_ms
                <= clock_bound,
    ensures
        r == spec_clock_range(view_devices(*devices)),
        0 <= r <= 2 * clock_bound,
{
    let ghost dv = view_devices(*devices);
    let n = devices.len();
    if n == 0 {
        return 0;
    }
    let mut min = devices[0].1.clock_ms;
    let mut max = min;
    proof {
        lemma_clock_stats(dv);
    }
    for i in 1..n
        invariant
            n == dv.len() == devices@.len(),
            1 <= i <= n,
            forall|j: int| 0 <= j < n ==> -clock_bound <= (#[trigger] dv[j]).1.clock_ms <= clock_bound,
            forall|j: int| 0 <= j < n ==> dv[j] == (devices@[j].0, devices@[j].1@),
            spec_min_clock(dv) == if i < n {
                let rest = spec_min_clock(dv.skip(i as int));
                if min < rest {
                    min as int
                } else {
                    rest
                }
            } else {
                min as int
            },
            spec_max_clock(dv) == if i < n {
                let rest = spec_max_clock(dv.skip(i as int));
                if max > rest {
                    max as int
                } else {
                    rest
                }
            } else {
                max as int
            },
            -clock_bound <= min <= clock_bound,
            -clock_bound <= max <= clock_bound,
    {
        proof {
            assert(dv.skip(i as int)[0] == dv[i as int]);
            if i + 1 < n {
                assert(dv.skip(i as int).drop_first() =~= dv.skip(i as int + 1));
            }
        }
        let c = devices[i].1.clock_ms;
        if c < min {
            min = c;
        }
        if c > max {
            max = c;
        }
    }
    max - min
}

/// How many devices hold a DR version other than `version`.
fn count_dr_ne(devices: &Vec<(String, DeviceState)>, version: i64) -> (r: usize)
    ensures
        r == spec_count_dr_ne(view_devices(*devices), version as int),
{
    let ghost dv = view_devices(*devices);
    proof {
        lemma_count_dr_ne(dv, version as int);
    }
    let n = devices.len();
    let mut count: usize = 0;
    proof {
        assert(dv.skip(0) =~= dv);
    }
    for i in 0..n
        invariant
            n == dv.len() == devices@.len(),
            forall|j: int| 0 <= j < n ==> dv[j] == (devices@[j].0, devices@[j].1@),
            count <= i,
            count + spec_count_dr_ne(dv.skip(i as int), version as int) == spec_count_dr_ne(
                dv,
                version as int,
            ),
    {
        proof {
            assert(dv.skip(i as int)[0] == dv[i as int]);
            assert(dv.skip(i as int).drop_first() =~= dv.skip(i as int + 1));
            lemma_count_dr_ne(dv.skip(i as int + 1), version as int);
        }
        if devices[i].1.dr_version != version {
            count = count + 1;
        }
    }
    count
}

// ---------------------------------------------------------------------------
// The executable tracker.
// ---------------------------------------------------------------------------

/// The live state the tracker owns during one scenario's replay.
pub struct DesyncTracker {
    pub devices: Vec<(String, DeviceState)>,
    pub messages: Vec<(String, Message)>,
    pub detection_time: Option<i64>,
    pub divergence_start: Option<i64>,
    pub recovery_time: Option<i64>,
    pub expected: i64,
    pub out_of_order: i64,
    pub dr_integral: i64,
    pub dr_samples: i64,
    pub max_dr_delta: i64,
    pub max_diverged_count: i64,
    pub max_clock_skew: i64,
    pub skew_violations: i64,
    pub recovery_attempts: i64,
    pub successful_recoveries: i64,
    pub failed_recoveries: i64,
    pub max_rollback: i64,
    pub errors: Vec<ViolationCode>,
    pub notes: Vec<Note>,
}

/// The mathematical value of an optional target list.
pub open spec fn opt_targets_view(o: Option<Vec<String>>) -> Option<Seq<String>> {
    match o {
        Some(ts) => Some(ts@),
        None => None,
    }
}

/// The mathematical value of an optional machine integer.
pub open spec fn opt_int(o: Option<i64>) -> Option<int> {
    match o {
        Some(x) => Some(x as int),
        None => None,
    }
}

impl View for DesyncTracker {
    type V = TrackerV;

    open spec fn view(&self) -> TrackerV {
        TrackerV {
            devices: view_devices(self.devices),
            messages: view_messages(self.messages),
            detection_time: opt_int(self.detection_time),
            divergence_start: opt_int(self.divergence_start),
            recovery_time: opt_int(self.recovery_time),
            expected: self.expected as int,
            out_of_order: self.out_of_order as int,
            dr_integral: self.dr_integral as int,
            dr_samples: self.dr_samples as int,
            max_dr_delta: self.max_dr_delta as int,
            max_diverged_count: self.max_diverged_count as int,
            max_clock_skew: self.max_clock_skew as int,
            skew_violations: self.skew_violations as int,
            recovery_attempts: self.recovery_attempts as int,
            successful_recoveries: self.successful_recoveries as int,
            failed_recoveries: self.failed_recoveries as int,
            max_rollback: self.max_rollback as int,
            errors: self.errors@,
            notes: self.notes@,
        }
    }
}

/// An optional value within the scenario value bound.
pub open spec fn opt_i64_bounded(o: Option<i64>) -> bool {
    match o {
        Some(x) => -VAL_BOUND <= x <= VAL_BOUND,
        None => true,
    }
}

/// An optional time within the scenario value bound.
pub open spec fn opt_time_bounded(o: Option<int>) -> bool {
    match o {
        Some(t) => -VAL_BOUND <= t <= VAL_BOUND,
        None => true,
    }
}

/// Every value an event carries is within the scenario bounds.
pub open spec fn event_bounded(ev: Event) -> bool {
    &&& -VAL_BOUND <= ev.t <= VAL_BOUND
    &&& match ev.kind {
        EventKind::SendMsg { to, dr_version, .. } => to@.len() <= MAX_ENTITIES && opt_i64_bounded(
            dr_version,
        ),
        EventKind::RecvMsg { apply_dr_version, .. } => opt_i64_bounded(apply_dr_version),
        EventKind::DropMsg { .. } => true,
        EventKind::ReplayMsg { to, dr_version, .. } => to@.len() <= MAX_ENTITIES && opt_i64_bounded(
            dr_version,
        ),
        EventKind::BackupRestore { dr_version, .. } => -VAL_BOUND <= dr_version <= VAL_BOUND,
        EventKind::ClockSkew { delta_ms, .. } => -VAL_BOUND <= delta_ms <= VAL_BOUND,
        EventKind::Resync { target_dr_version, .. } => -VAL_BOUND <= target_dr_version <= VAL_BOUND,
    }
}

/// Fleet state within bounds: the fleet is not oversized, versions are
/// scenario values, clocks have drifted at most `clock_bound`.
pub open spec fn devices_bounded(devices: Seq<(String, DeviceStateV)>, clock_bound: int) -> bool {
    &&& devices.len() <= MAX_ENTITIES
    &&& forall|i: int|
        0 <= i < devices.len() ==> -VAL_BOUND <= (#[trigger] devices[i]).1.dr_version <= VAL_BOUND
    &&& forall|i: int|
        0 <= i < devices.len() ==> -clock_bound <= (#[trigger] devices[i]).1.clock_ms <= clock_bound
}

/// Message state within bounds after `k` replay steps.
pub open spec fn messages_bounded(messages: Seq<(String, MessageV)>, k: int) -> bool {
    &&& messages.len() <= k
    &&& forall|i: int|
        0 <= i < messages.len() ==> {
            let m = (#[trigger] messages[i]).1;
            &&& -VAL_BOUND <= m.dr_version <= VAL_BOUND
            &&& -VAL_BOUND <= m.send_time <= VAL_BOUND
            &&& 0 <= m.replay_count <= k
            &&& m.delivered.len() <= k
            &&& 0 <= m.delivery_events <= k
        }
}

/// Tracker state within bounds between steps; `dr_samples` counts the
/// steps completed, and every quantity is bounded by what that many
/// bounded events can have accumulated.
pub open spec fn tracker_bounded(v: TrackerV) -> bool {
    let k = v.dr_samples;
    &&& 0 <= k <= MAX_EVENTS
    &&& devices_bounded(v.devices, VAL_BOUND * (k + 1))
    &&& messages_bounded(v.messages, k)
    &&& opt_time_bounded(v.detection_time)
    &&& opt_time_bounded(v.divergence_start)
    &&& opt_time_bounded(v.recovery_time)
    &&& 0 <= v.expected <= MAX_ENTITIES * k
    &&& 0 <= v.out_of_order <= k
    &&& 0 <= v.dr_integral <= 2 * VAL_BOUND * k
    &&& 0 <= v.max_dr_delta <= 2 * VAL_BOUND
    &&& 0 <= v.max_diverged_count <= v.devices.len()
    &&& 0 <= v.max_clock_skew <= 2 * VAL_BOUND * (k + 1)
    &&& 0 <= v.skew_violations <= k
    &&& 0 <= v.recovery_attempts <= k
    &&& 0 <= v.successful_recoveries <= k
    &&& 0 <= v.failed_recoveries <= k
    &&& 0 <= v.max_rollback <= 2 * VAL_BOUND
}

/// Tracker state within bounds in the middle of step `k + 1`: the event
/// handler has run, the closing sample has not.
pub open spec fn tracker_bounded_mid(v: TrackerV) -> bool {
    let k = v.dr_samples;
    &&& 0 <= k < MAX_EVENTS
    &&& devices_bounded(v.devices, VAL_BOUND * (k + 2))
    &&& messages_bounded(v.messages, k + 1)
    &&& opt_time_bounded(v.detection_time)
    &&& opt_time_bounded(v.divergence_start)
    &&& opt_time_bounded(v.recovery_time)
    &&& 0 <= v.expected <= MAX_ENTITIES * (k + 1)
    &&& 0 <= v.out_of_order <= k + 1
    &&& 0 <= v.dr_integral <= 2 * VAL_BOUND * k
    &&& 0 <= v.max_dr_delta <= 2 * VAL_BOUND
    &&& 0 <= v.max_diverged_count <= v.devices.len()
    &&& 0 <= v.max_clock_skew <= 2 * VAL_BOUND * (k + 2)
    &&& 0 <= v.skew_violations <= k + 1
    &&& 0 <= v.recovery_attempts <= k + 1
    &&& 0 <= v.successful_recoveries <= k + 1
    &&& 0 <= v.failed_recoveries <= k + 1
    &&& 0 <= v.max_rollback <= 2 * VAL_BOUND
}

/// Scaling a larger factor by a nonnegative value gives a larger product.
pub proof fn lemma_scale_mono(a: int, b: int, c: int)
    requires
        0 <= a,
        b <= c,
    ensures
        a * b <= a * c,
        a * (b + 1) == a * b + a,
{
    assert(a * b <= a * c) by (nonlinear_arith)
        requires
            0 <= a,
            b <= c,
    ;
    assert(a * (b + 1) == a * b + a) by (nonlinear_arith);
}

/// Copy a list of identity strings.
pub fn clone_strings(v: &Vec<String>) -> (r: Vec<String>)
    ensures
        r@ == v@,
{
    let n = v.len();
    let mut r: Vec<String> = Vec::new();
    for i in 0..n
        invariant
            n == v@.len(),
            r@ =~= v@.take(i as int),
    {
        r.push(v[i].clone());
        proof {
            assert(r@ =~= v@.take(i as int + 1));
        }
    }
    proof {
        assert(v@.take(n as int) =~= v@);
    }
    r
}

/// Copy an optional identity string.
pub fn clone_opt_string(o: &Option<String>) -> (r: Option<String>)
    ensures
        r == *o,
{
    match o {
        Some(s) => Some(s.clone()),
        None => None,
    }
}

impl DesyncTracker {
    /// Every device's logical clock catches up to the event time.
    fn bump_clocks(&mut self, t: i64)
        requires
            tracker_bounded(old(self)@),
            -VAL_BOUND <= t <= VAL_BOUND,
        ensures
            final(self)@ == (TrackerV {
                devices: spec_bump_clocks(old(self)@.devices, t as int),
                ..old(self)@
            }),
            tracker_bounded(final(self)@),
            final(self).devices@.len() == old(self).devices@.len(),
    {
        let ghost v0 = self@;
        let n = self.devices.len();
        for i in 0..n
            invariant
                n == self.devices@.len(),
                -VAL_BOUND <= t <= VAL_BOUND,
                tracker_bounded(v0),
                self.messages == old(self).messages,
                self.detection_time == old(self).detection_time,
                self.divergence_start == old(self).divergence_start,
                self.recovery_time == old(self).recovery_time,
                self.expected == old(self).expected,
                self.out_of_order == old(self).out_of_order,
                self.dr_integral == old(self).dr_integral,
                self.dr_samples == old(self).dr_samples,
                self.max_dr_delta == old(self).max_dr_delta,
                self.max_diverged_count == old(self).max_diverged_count,
                self.max_clock_skew == old(self).max_clock_skew,
                self.skew_violations == old(self).skew_violations,
                self.recovery_attempts == old(self).recovery_attempts,
                self.successful_recoveries == old(self).successful_recoveries,
                self.failed_recoveries == old(self).failed_recoveries,
                self.max_rollback == old(self).max_rollback,
                self.errors == old(self).errors,
                self.notes == old(self).notes,
                v0 == old(self)@,
                forall|j: int|
                    0 <= j < i ==> self.devices@[j] == (
                        #[trigger] old(self).devices@[j].0,
                        DeviceState {
                            clock_ms: if t > old(self).devices@[j].1.clock_ms {
                                t
                            } else {
                                old(self).devices@[j].1.clock_ms
                            },
                            ..old(self).devices@[j].1
                        },
                    ),
                forall|j: int| i <= j < n ==> self.devices@[j] == #[trigger] old(self).devices@[j],
        {
            if t > self.devices[i].1.clock_ms {
                self.devices[i].1.clock_ms = t;
            }
        }
        proof {
            assert(view_devices(self.devices) =~~= spec_bump_clocks(v0.devices, t as int));
            assert(self@ =~~= TrackerV { devices: spec_bump_clocks(v0.devices, t as int), ..v0 });
        }
    }

    /// Apply a `send` event; see `spec_send`.
    fn apply_send(
        &mut self,
        t: i64,
        msg_id: &String,
        from: &String,
        to: &Vec<String>,
        dr_version_opt: Option<i64>,
        state_hash: &Option<String>,
    ) -> (r: Result<(), SimError>)
        requires
            tracker_bounded(old(self)@),
            old(self)@.dr_samples < MAX_EVENTS,
            -VAL_BOUND <= t <= VAL_BOUND,
            to@.len() <= MAX_ENTITIES,
            opt_i64_bounded(dr_version_opt),
        ensures
            r matches Ok(u) ==> spec_send(
                old(self)@,
                t as int,
                *msg_id,
                *from,
                to@,
                dr_version_opt,
                *state_hash,
            ) == Ok::<TrackerV, SimError>(final(self)@) && tracker_bounded_mid(final(self)@),
            r matches Err(e) ==> spec_send(
                old(self)@,
                t as int,
                *msg_id,
                *from,
                to@,
                dr_version_opt,
                *state_hash,
            ) == Err::<TrackerV, SimError>(e) && *final(self) == *old(self),
    {
        let ghost v0 = self@;
        let di_opt = lookup(&self.devices, from);
        proof {
            match di_opt {
                Some(di) => {
                    assert(v0.devices[di as int].0 == self.devices@[di as int].0);
                    assert forall|j: int| 0 <= j < di implies (#[trigger] v0.devices[j]).0@
                        != from@ by {
                        assert(v0.devices[j].0 == self.devices@[j].0);
                    }
                    lemma_find_key_at(v0.devices, *from, di as int);
                },
                None => {
                    assert forall|j: int|
                        0 <= j < v0.devices.len() implies (#[trigger] v0.devices[j]).0@ != from@ by {
                        assert(v0.devices[j].0 == self.devices@[j].0);
                    }
                    lemma_find_key_absent(v0.devices, *from);
                },
            }
        }
        let dr_version: i64 = match dr_version_opt {
            Some(x) => x,
            None => match di_opt {
                Some(di) => self.devices[di].1.dr_version,
                None => {
                    return Err(SimError::UnknownDevice { device: from.clone() });
                },
            },
        };
        let mi_opt = lookup(&self.messages, msg_id);
        proof {
            match mi_opt {
                Some(mi) => {
                    assert(v0.messages[mi as int].0 == self.messages@[mi as int].0);
                    assert forall|j: int| 0 <= j < mi implies (#[trigger] v0.messages[j]).0@
                        != msg_id@ by {
                        assert(v0.messages[j].0 == self.messages@[j].0);
                    }
                    lemma_find_key_at(v0.messages, *msg_id, mi as int);
                },
                None => {
                    assert forall|j: int|
                        0 <= j < v0.messages.len() implies (#[trigger] v0.messages[j]).0@
                        != msg_id@ by {
                        assert(v0.messages[j].0 == self.messages@[j].0);
                    }
                    lemma_find_key_absent(v0.messages, *msg_id);
                },
            }
        }
        match mi_opt {
            Some(mi) => {
                self.messages[mi].1.replay_count = self.messages[mi].1.replay_count + 1;
            },
            None => {
                let msg = Message {
                    sender: from.clone(),
                    targets: clone_strings(to),
                    dr_version,
                    state_hash: clone_opt_string(state_hash),
                    send_time: t,
                    delivered: Vec::new(),
                    dropped: Vec::new(),
                    replay_count: 0,
                    delivery_events: 0,
                };
                self.messages.push((msg_id.clone(), msg));
            },
        }
        self.expected = self.expected + to.len() as i64;
        if let Some(di) = di_opt {
            let cur = self.devices[di].1.dr_version;
            if dr_version < cur {
                let rollback = cur - dr_version;
                if rollback > self.max_rollback {
                    self.max_rollback = rollback;
                }
            }
            self.devices[di].1.dr_version = dr_version;
            if let Some(h) = state_hash {
                self.devices[di].1.state_hash = Some(h.clone());
            }
        }
        proof {
            let k = v0.dr_samples;
            lemma_scale_mono(VAL_BOUND as int, k, k + 1);
            lemma_scale_mono(VAL_BOUND as int, k + 1, k + 2);
            lemma_scale_mono(2 * VAL_BOUND, k, k + 1);
            lemma_scale_mono(2 * VAL_BOUND, k + 1, k + 2);
            lemma_scale_mono(MAX_ENTITIES as int, k, k + 1);
            let sv = spec_send(v0, t as int, *msg_id, *from, to@, dr_version_opt, *state_hash);
            assert(sv is Ok);
            assert(self@ =~~= sv->Ok_0);
        }
        Ok(())
    }

    /// Apply a `recv` event; see `spec_recv`.
    fn apply_recv(
        &mut self,
        t: i64,
        msg_id: &String,
        device: &String,
        apply_opt: Option<i64>,
        state_hash: &Option<String>,
    ) -> (r: Result<(), SimError>)
        requires
            tracker_bounded(old(self)@),
            old(self)@.dr_samples < MAX_EVENTS,
            -VAL_BOUND <= t <= VAL_BOUND,
            opt_i64_bounded(apply_opt),
        ensures
            r matches Ok(u) ==> spec_recv(
                old(self)@,
                t as int,
                *msg_id,
                *device,
                apply_opt,
                *state_hash,
            ) == Ok::<TrackerV, SimError>(final(self)@) && tracker_bounded_mid(final(self)@),
            r is Err ==> false,
    {
        let ghost v0 = self@;
        let mi_opt = lookup(&self.messages, msg_id);
        let di_opt = lookup(&self.devices, device);
        proof {
            match mi_opt {
                Some(mi) => {
                    assert(v0.messages[mi as int].0 == self.messages@[mi as int].0);
                    assert forall|j: int| 0 <= j < mi implies (#[trigger] v0.messages[j]).0@
                        != msg_id@ by {
                        assert(v0.messages[j].0 == self.messages@[j].0);
                    }
                    lemma_find_key_at(v0.messages, *msg_id, mi as int);
                },
                None => {
                    assert forall|j: int|
                        0 <= j < v0.messages.len() implies (#[trigger] v0.messages[j]).0@
                        != msg_id@ by {
                        assert(v0.messages[j].0 == self.messages@[j].0);
                    }
                    lemma_find_key_absent(v0.messages, *msg_id);
                },
            }
            match di_opt {
                Some(di) => {
                    assert(v0.devices[di as int].0 == self.devices@[di as int].0);
                    assert forall|j: int| 0 <= j < di implies (#[trigger] v0.devices[j]).0@
                        != device@ by {
                        assert(v0.devices[j].0 == self.devices@[j].0);
                    }
                    lemma_find_key_at(v0.devices, *device, di as int);
                },
                None => {
                    assert forall|j: int|
                        0 <= j < v0.devices.len() implies (#[trigger] v0.devices[j]).0@
                        != device@ by {
                        assert(v0.devices[j].0 == self.devices@[j].0);
                    }
                    lemma_find_key_absent(v0.devices, *device);
                },
            }
        }
        if mi_opt.is_none() || di_opt.is_none() {
            push_err(&mut self.errors, ViolationCode::UnknownMessage);
            if self.detection_time.is_none() {
                self.detection_time = Some(t);
            }
        }
        if let (Some(mi), Some(di)) = (mi_opt, di_opt) {
            let ghost v1 = self@;
            let already = contains_str(&self.messages[mi].1.delivered, device);
            if already {
                push_err(&mut self.errors, ViolationCode::DuplicateDelivery);
            }
            if t < self.messages[mi].1.send_time {
                self.out_of_order = self.out_of_order + 1;
            }
            insert_str(&mut self.messages[mi].1.delivered, device);
            self.messages[mi].1.delivery_events = self.messages[mi].1.delivery_events + 1;
            if let Some(apply_ver) = apply_opt {
                let cur = self.devices[di].1.dr_version;
                if apply_ver < cur {
                    let rollback = cur - apply_ver;
                    if rollback > self.max_rollback {
                        self.max_rollback = rollback;
                    }
                }
                self.devices[di].1.dr_version = apply_ver;
            }
            if let Some(h) = state_hash {
                self.devices[di].1.state_hash = Some(h.clone());
            }
        }
        proof {
            let k = v0.dr_samples;
            lemma_scale_mono(VAL_BOUND as int, k, k + 1);
            lemma_scale_mono(VAL_BOUND as int, k + 1, k + 2);
            lemma_scale_mono(2 * VAL_BOUND, k, k + 1);
            lemma_scale_mono(2 * VAL_BOUND, k + 1, k + 2);
            lemma_scale_mono(MAX_ENTITIES as int, k, k + 1);
            let sv = spec_recv(v0, t as int, *msg_id, *device, apply_opt, *state_hash);
            assert(sv is Ok);
            assert(self@ =~~= sv->Ok_0);
        }
        Ok(())
    }

    /// Apply a `drop` event; see `spec_drop`.
    fn apply_drop(&mut self, t: i64, msg_id: &String, targets_opt: &Option<Vec<String>>) -> (r:
        Result<(), SimError>)
        requires
            tracker_bounded(old(self)@),
            old(self)@.dr_samples < MAX_EVENTS,
            -VAL_BOUND <= t <= VAL_BOUND,
        ensures
            r matches Ok(u) ==> spec_drop(old(self)@, t as int, *msg_id, opt_targets_view(*targets_opt))
                == Ok::<TrackerV, SimError>(final(self)@) && tracker_bounded_mid(final(self)@),
            r is Err ==> false,
    {
        let ghost v0 = self@;
        let mi_opt = lookup(&self.messages, msg_id);
        proof {
            match mi_opt {
                Some(mi) => {
                    assert(v0.messages[mi as int].0 == self.messages@[mi as int].0);
                    assert forall|j: int| 0 <= j < mi implies (#[trigger] v0.messages[j]).0@
                        != msg_id@ by {
                        assert(v0.messages[j].0 == self.messages@[j].0);
                    }
                    lemma_find_key_at(v0.messages, *msg_id, mi as int);
                },
                None => {
                    assert forall|j: int|
                        0 <= j < v0.messages.len() implies (#[trigger] v0.messages[j]).0@
                        != msg_id@ by {
                        assert(v0.messages[j].0 == self.messages@[j].0);
                    }
                    lemma_find_key_absent(v0.messages, *msg_id);
                },
            }
        }
        match mi_opt {
            None => {
                push_err(&mut self.errors, ViolationCode::UnknownMessage);
                if self.detection_time.is_none() {
                    self.detection_time = Some(t);
                }
            },
            Some(mi) => {
                let target_list = match targets_opt {
                    Some(ts) => clone_strings(ts),
                    None => clone_strings(&self.messages[mi].1.targets),
                };
                let ghost tl = target_list@;
                let ghost msg0 = v0.messages[mi as int].1;
                proof {
                    assert(tl.skip(0) =~= tl);
                    assert(view_messages(self.messages)[mi as int].1 =~~= (MessageV {
                        dropped: view_messages(self.messages)[mi as int].1.dropped,
                        ..msg0
                    }));
                }
                let n = target_list.len();
                for j in 0..n
                    invariant
                        n == tl.len(),
                        target_list@ == tl,
                        mi < self.messages@.len(),
                        self.messages@.len() == v0.messages.len(),
                        self.devices == old(self).devices,
                        self.detection_time == old(self).detection_time,
                        self.divergence_start == old(self).divergence_start,
                        self.recovery_time == old(self).recovery_time,
                        self.expected == old(self).expected,
                        self.out_of_order == old(self).out_of_order,
                        self.dr_integral == old(self).dr_integral,
                        self.dr_samples == old(self).dr_samples,
                        self.max_dr_delta == old(self).max_dr_delta,
                        self.max_diverged_count == old(self).max_diverged_count,
                        self.max_clock_skew == old(self).max_clock_skew,
                        self.skew_violations == old(self).skew_violations,
                        self.recovery_attempts == old(self).recovery_attempts,
                        self.successful_recoveries == old(self).successful_recoveries,
                        self.failed_recoveries == old(self).failed_recoveries,
                        self.max_rollback == old(self).max_rollback,
                        self.errors == old(self).errors,
                        self.notes == old(self).notes,
                        v0 == old(self)@,
                        msg0 == v0.messages[mi as int].1,
                        forall|l: int|
                            0 <= l < self.messages@.len() && l != mi ==> view_messages(
                                self.messages,
                            )[l] == #[trigger] v0.messages[l],
                        view_messages(self.messages)[mi as int].0 == v0.messages[mi as int].0,
                        view_messages(self.messages)[mi as int].1 == (MessageV {
                            dropped: view_messages(self.messages)[mi as int].1.dropped,
                            ..msg0
                        }),
                        spec_insert_all(
                            view_messages(self.messages)[mi as int].1.dropped,
                            tl.skip(j as int),
                        ) == spec_insert_all(msg0.dropped, tl),
                {
                    proof {
                        assert(tl.skip(j as int)[0] == tl[j as int]);
                        assert(tl.skip(j as int).drop_first() =~= tl.skip(j as int + 1));
                    }
                    insert_str(&mut self.messages[mi].1.dropped, &target_list[j]);
                    proof {
                        assert(view_messages(self.messages)[mi as int].1 =~~= (MessageV {
                            dropped: view_messages(self.messages)[mi as int].1.dropped,
                            ..msg0
                        }));
                    }
                }
                proof {
                    assert(tl.skip(n as int) =~= Seq::<String>::empty());
                }
            },
        }
        proof {
            let k = v0.dr_samples;
            lemma_scale_mono(VAL_BOUND as int, k, k + 1);
            lemma_scale_mono(VAL_BOUND as int, k + 1, k + 2);
            lemma_scale_mono(2 * VAL_BOUND, k, k + 1);
            lemma_scale_mono(2 * VAL_BOUND, k + 1, k + 2);
            lemma_scale_mono(MAX_ENTITIES as int, k, k + 1);
            let sv = spec_drop(v0, t as int, *msg_id, opt_targets_view(*targets_opt));
            assert(sv is Ok);
            assert(self@ =~~= sv->Ok_0);
        }
        Ok(())
    }

    /// Apply a `replay` event; see `spec_replay`.
    fn apply_replay(
        &mut self,
        t: i64,
        msg_id: &String,
        from: &String,
        to: &Vec<String>,
        dr_version_opt: Option<i64>,
    ) -> (r: Result<(), SimError>)
        requires
            tracker_bounded(old(self)@),
            old(self)@.dr_samples < MAX_EVENTS,
            -VAL_BOUND <= t <= VAL_BOUND,
            to@.len() <= MAX_ENTITIES,
            opt_i64_bounded(dr_version_opt),
        ensures
            r matches Ok(u) ==> spec_replay(old(self)@, t as int, *msg_id, *from, to@, dr_version_opt)
                == Ok::<TrackerV, SimError>(final(self)@) && tracker_bounded_mid(final(self)@),
            r matches Err(e) ==> spec_replay(old(self)@, t as int, *msg_id, *from, to@, dr_version_opt)
                == Err::<TrackerV, SimError>(e) && *final(self) == *old(self),
    {
        let ghost v0 = self@;
        let di_opt = lookup(&self.devices, from);
        proof {
            match di_opt {
                Some(di) => {
                    assert(v0.devices[di as int].0 == self.devices@[di as int].0);
                    assert forall|j: int| 0 <= j < di implies (#[trigger] v0.devices[j]).0@
                        != from@ by {
                        assert(v0.devices[j].0 == self.devices@[j].0);
                    }
                    lemma_find_key_at(v0.devices, *from, di as int);
                },
                None => {
                    assert forall|j: int|
                        0 <= j < v0.devices.len() implies (#[trigger] v0.devices[j]).0@ != from@ by {
                        assert(v0.devices[j].0 == self.devices@[j].0);
                    }
                    lemma_find_key_absent(v0.devices, *from);
                },
            }
        }
        let di = match di_opt {
            Some(di) => di,
            None => {
                return Err(SimError::UnknownDevice { device: from.clone() });
            },
        };
        let dr_version: i64 = match dr_version_opt {
            Some(x) => x,
            None => self.devices[di].1.dr_version,
        };
        let mi_opt = lookup(&self.messages, msg_id);
        proof {
            match mi_opt {
                Some(mi) => {
                    assert(v0.messages[mi as int].0 == self.messages@[mi as int].0);
                    assert forall|j: int| 0 <= j < mi implies (#[trigger] v0.messages[j]).0@
                        != msg_id@ by {
                        assert(v0.messages[j].0 == self.messages@[j].0);
                    }
                    lemma_find_key_at(v0.messages, *msg_id, mi as int);
                },
                None => {
                    assert forall|j: int|
                        0 <= j < v0.messages.len() implies (#[trigger] v0.messages[j]).0@
                        != msg_id@ by {
                        assert(v0.messages[j].0 == self.messages@[j].0);
                    }
                    lemma_find_key_absent(v0.messages, *msg_id);
                },
            }
        }
        match mi_opt {
            Some(mi) => {
                self.messages[mi].1.replay_count = self.messages[mi].1.replay_count + 1;
            },
            None => {
                let msg = Message {
                    sender: from.clone(),
                    targets: clone_strings(to),
                    dr_version,
                    state_hash: None,
                    send_time: t,
                    delivered: Vec::new(),
                    dropped: Vec::new(),
                    replay_count: 1,
                    delivery_events: 0,
                };
                self.messages.push((msg_id.clone(), msg));
            },
        }
        self.expected = self.expected + to.len() as i64;
        push_err(&mut self.errors, ViolationCode::ReplayInjected);
        if self.detection_time.is_none() {
            self.detection_time = Some(t);
        }
        proof {
            let k = v0.dr_samples;
            lemma_scale_mono(VAL_BOUND as int, k, k + 1);
            lemma_scale_mono(VAL_BOUND as int, k + 1, k + 2);
            lemma_scale_mono(2 * VAL_BOUND, k, k + 1);
            lemma_scale_mono(2 * VAL_BOUND, k + 1, k + 2);
            lemma_scale_mono(MAX_ENTITIES as int, k, k + 1);
            let sv = spec_replay(v0, t as int, *msg_id, *from, to@, dr_version_opt);
            assert(sv is Ok);
            assert(self@ =~~= sv->Ok_0);
        }
        Ok(())
    }

    /// Apply a `backup_restore` event; see `spec_backup_restore`.
    fn apply_backup_restore(
        &mut self,
        t: i64,
        device: &String,
        dr_version: i64,
        state_hash: &Option<String>,
    ) -> (r: Result<(), SimError>)
        requires
            tracker_bounded(old(self)@),
            old(self)@.dr_samples < MAX_EVENTS,
            -VAL_BOUND <= t <= VAL_BOUND,
            -VAL_BOUND <= dr_version <= VAL_BOUND,
        ensures
            r matches Ok(u) ==> spec_backup_restore(old(self)@, t as int, *device, dr_version, *state_hash)
                == Ok::<TrackerV, SimError>(final(self)@) && tracker_bounded_mid(final(self)@),
            r matches Err(e) ==> spec_backup_restore(old(self)@, t as int, *device, dr_version, *state_hash)
                == Err::<TrackerV, SimError>(e) && *final(self) == *old(self),
    {
        let ghost v0 = self@;
        let di_opt = lookup(&self.devices, device);
        proof {
            match di_opt {
                Some(di) => {
                    assert(v0.devices[di as int].0 == self.devices@[di as int].0);
                    assert forall|j: int| 0 <= j < di implies (#[trigger] v0.devices[j]).0@
                        != device@ by {
                        assert(v0.devices[j].0 == self.devices@[j].0);
                    }
                    lemma_find_key_at(v0.devices, *device, di as int);
                },
                None => {
                    assert forall|j: int|
                        0 <= j < v0.devices.len() implies (#[trigger] v0.devices[j]).0@
                        != device@ by {
                        assert(v0.devices[j].0 == self.devices@[j].0);
                    }
                    lemma_find_key_absent(v0.devices, *device);
                },
            }
        }
        let di = match di_opt {
            Some(di) => di,
            None => {
                return Err(SimError::UnknownDevice { device: device.clone() });
            },
        };
        let cur = self.devices[di].1.dr_version;
        if dr_version < cur {
            let rollback = cur - dr_version;
            if rollback > self.max_rollback {
                self.max_rollback = rollback;
            }
            push_err(&mut self.errors, ViolationCode::RollbackApplied);
            if self.detection_time.is_none() {
                self.detection_time = Some(t);
            }
        }
        self.devices[di].1.dr_version = dr_version;
        if let Some(h) = state_hash {
            self.devices[di].1.state_hash = Some(h.clone());
        }
        proof {
            let k = v0.dr_samples;
            lemma_scale_mono(VAL_BOUND as int, k, k + 1);
            lemma_scale_mono(VAL_BOUND as int, k + 1, k + 2);
            lemma_scale_mono(2 * VAL_BOUND, k, k + 1);
            lemma_scale_mono(2 * VAL_BOUND, k + 1, k + 2);
            lemma_scale_mono(MAX_ENTITIES as int, k, k + 1);
            let sv = spec_backup_restore(v0, t as int, *device, dr_version, *state_hash);
            assert(sv is Ok);
            assert(self@ =~~= sv->Ok_0);
        }
        Ok(())
    }

    /// Apply a `clock_skew` event; see `spec_clock_skew`.
    fn apply_clock_skew(&mut self, t: i64, device: &String, delta_ms: i64, skew_limit: i64) -> (r:
        Result<(), SimError>)
        requires
            tracker_bounded(old(self)@),
            old(self)@.dr_samples < MAX_EVENTS,
            -VAL_BOUND <= t <= VAL_BOUND,
            -VAL_BOUND <= delta_ms <= VAL_BOUND,
        ensures
            r matches Ok(u) ==> spec_clock_skew(old(self)@, t as int, *device, delta_ms, skew_limit as int)
                == Ok::<TrackerV, SimError>(final(self)@) && tracker_bounded_mid(final(self)@),
            r matches Err(e) ==> spec_clock_skew(old(self)@, t as int, *device, delta_ms, skew_limit as int)
                == Err::<TrackerV, SimError>(e) && *final(self) == *old(self),
    {
        let ghost v0 = self@;
        let di_opt = lookup(&self.devices, device);
        proof {
            match di_opt {
                Some(di) => {
                    assert(v0.devices[di as int].0 == self.devices@[di as int].0);
                    assert forall|j: int| 0 <= j < di implies (#[trigger] v0.devices[j]).0@
                        != device@ by {
                        assert(v0.devices[j].0 == self.devices@[j].0);
                    }
                    lemma_find_key_at(v0.devices, *device, di as int);
                },
                None => {
                    assert forall|j: int|
                        0 <= j < v0.devices.len() implies (#[trigger] v0.devices[j]).0@
                        != device@ by {
                        assert(v0.devices[j].0 == self.devices@[j].0);
                    }
                    lemma_find_key_absent(v0.devices, *device);
                },
            }
        }
        let di = match di_opt {
            Some(di) => di,
            None => {
                return Err(SimError::UnknownDevice { device: device.clone() });
            },
        };
        self.devices[di].1.clock_ms = self.devices[di].1.clock_ms + delta_ms;
        proof {
            assert(view_devices(self.devices) =~= v0.devices.update(
                di as int,
                (
                    v0.devices[di as int].0,
                    DeviceStateV {
                        clock_ms: v0.devices[di as int].1.clock_ms + delta_ms,
                        ..v0.devices[di as int].1
                    },
                ),
            ));
        }
        let clock_bound = VAL_BOUND * (self.dr_samples + 2);
        proof {
            assert forall|i: int|
                0 <= i < self.devices@.len() implies -clock_bound <= (
            #[trigger] self.devices@[i]).1.clock_ms <= clock_bound by {
                assert(view_devices(self.devices)[i] == (self.devices@[i].0, self.devices@[i].1@));
                if i != di {
                    assert(view_devices(self.devices)[i] == v0.devices[i]);
                }
            }
        }
        let cr = clock_range(&self.devices, clock_bound);
        if cr > self.max_clock_skew {
            self.max_clock_skew = cr;
        }
        if self.max_clock_skew > skew_limit {
            self.skew_violations = self.skew_violations + 1;
            push_err(&mut self.errors, ViolationCode::ClockSkewViolation);
            if self.detection_time.is_none() {
                self.detection_time = Some(t);
            }
        }
        proof {
            let k = v0.dr_samples;
            lemma_scale_mono(VAL_BOUND as int, k, k + 1);
            lemma_scale_mono(VAL_BOUND as int, k + 1, k + 2);
            lemma_scale_mono(2 * VAL_BOUND, k, k + 1);
            lemma_scale_mono(2 * VAL_BOUND, k + 1, k + 2);
            lemma_scale_mono(MAX_ENTITIES as int, k, k + 1);
            let sv = spec_clock_skew(v0, t as int, *device, delta_ms, skew_limit as int);
            assert(sv is Ok);
            assert(self@ =~~= sv->Ok_0);
        }
        Ok(())
    }

    /// Apply a `resync` event; see `spec_resync`.
    fn apply_resync(
        &mut self,
        t: i64,
        device: &String,
        target_dr_version: i64,
        state_hash: &Option<String>,
    ) -> (r: Result<(), SimError>)
        requires
            tracker_bounded(old(self)@),
            old(self)@.dr_samples < MAX_EVENTS,
            -VAL_BOUND <= t <= VAL_BOUND,
            -VAL_BOUND <= target_dr_version <= VAL_BOUND,
        ensures
            r matches Ok(u) ==> spec_resync(old(self)@, t as int, *device, target_dr_version, *state_hash)
                == Ok::<TrackerV, SimError>(final(self)@) && tracker_bounded_mid(final(self)@),
            r matches Err(e) ==> spec_resync(old(self)@, t as int, *device, target_dr_version, *state_hash)
                == Err::<TrackerV, SimError>(e) && *final(self) == *old(self),
    {
        let ghost v0 = self@;
        let di_opt = lookup(&self.devices, device);
        proof {
            match di_opt {
                Some(di) => {
                    assert(v0.devices[di as int].0 == self.devices@[di as int].0);
                    assert forall|j: int| 0 <= j < di implies (#[trigger] v0.devices[j]).0@
                        != device@ by {
                        assert(v0.devices[j].0 == self.devices@[j].0);
                    }
                    lemma_find_key_at(v0.devices, *device, di as int);
                },
                None => {
                    assert forall|j: int|
                        0 <= j < v0.devices.len() implies (#[trigger] v0.devices[j]).0@
                        != device@ by {
                        assert(v0.devices[j].0 == self.devices@[j].0);
                    }
                    lemma_find_key_absent(v0.devices, *device);
                },
            }
            assert forall|i: int|
                0 <= i < self.devices@.len() implies -VAL_BOUND <= (
            #[trigger] self.devices@[i]).1.dr_version <= VAL_BOUND by {
                assert(v0.devices[i] == (self.devices@[i].0, self.devices@[i].1@));
            }
        }
        let di = match di_opt {
            Some(di) => di,
            None => {
                return Err(SimError::UnknownDevice { device: device.clone() });
            },
        };
        let before = current_dr_stats(&self.devices);
        self.recovery_attempts = self.recovery_attempts + 1;
        let cur = self.devices[di].1.dr_version;
        if target_dr_version < cur {
            let rollback = cur - target_dr_version;
            if rollback > self.max_rollback {
                self.max_rollback = rollback;
            }
        }
        self.devices[di].1.dr_version = target_dr_version;
        if let Some(h) = state_hash {
            self.devices[di].1.state_hash = Some(h.clone());
        }
        proof {
            assert(view_devices(self.devices) =~= v0.devices.update(
                di as int,
                (
                    v0.devices[di as int].0,
                    DeviceStateV {
                        dr_version: target_dr_version as int,
                        state_hash: if (*state_hash) is Some {
                            *state_hash
                        } else {
                            v0.devices[di as int].1.state_hash
                        },
                        ..v0.devices[di as int].1
                    },
                ),
            ));
            assert forall|i: int|
                0 <= i < self.devices@.len() implies -VAL_BOUND <= (
            #[trigger] self.devices@[i]).1.dr_version <= VAL_BOUND by {
                assert(view_devices(self.devices)[i] == (self.devices@[i].0, self.devices@[i].1@));
                if i != di {
                    assert(view_devices(self.devices)[i] == v0.devices[i]);
                }
            }
        }
        let after = current_dr_stats(&self.devices);
        if after.2 == 0 {
            self.successful_recoveries = self.successful_recoveries + 1;
        } else if after.2 < before.2 {
            self.notes.push(Note::ResyncReducedDivergence { device: device.clone() });
        } else {
            self.failed_recoveries = self.failed_recoveries + 1;
        }
        proof {
            let k = v0.dr_samples;
            lemma_scale_mono(VAL_BOUND as int, k, k + 1);
            lemma_scale_mono(VAL_BOUND as int, k + 1, k + 2);
            lemma_scale_mono(2 * VAL_BOUND, k, k + 1);
            lemma_scale_mono(2 * VAL_BOUND, k + 1, k + 2);
            lemma_scale_mono(MAX_ENTITIES as int, k, k + 1);
            let sv = spec_resync(v0, t as int, *device, target_dr_version, *state_hash);
            assert(sv is Ok);
            assert(self@ =~~= sv->Ok_0);
        }
        Ok(())
    }

    /// One full replay step; see `spec_step`.
    pub fn apply(&mut self, ev: &Event, skew_limit: i64) -> (r: Result<(), SimError>)
        requires
            tracker_bounded(old(self)@),
            old(self)@.dr_samples < MAX_EVENTS,
            event_bounded(*ev),
        ensures
            r matches Ok(u) ==> spec_step(old(self)@, *ev, skew_limit as int) == Ok::<
                TrackerV,
                SimError,
            >(final(self)@) && tracker_bounded(final(self)@) && final(self)@.dr_samples == old(
                self,
            )@.dr_samples + 1,
            r matches Err(e) ==> spec_step(old(self)@, *ev, skew_limit as int) == Err::<
                TrackerV,
                SimError,
            >(e),
    {
        self.bump_clocks(ev.t);
        let r = match &ev.kind {
            EventKind::SendMsg { msg_id, from, to, dr_version, state_hash } => self.apply_send(
                ev.t,
                msg_id,
                from,
                to,
                *dr_version,
                state_hash,
            ),
            EventKind::RecvMsg { msg_id, device, apply_dr_version, state_hash } => self.apply_recv(
                ev.t,
                msg_id,
                device,
                *apply_dr_version,
                state_hash,
            ),
            EventKind::DropMsg { msg_id, targets } => self.apply_drop(ev.t, msg_id, targets),
            EventKind::ReplayMsg { msg_id, from, to, dr_version } => self.apply_replay(
                ev.t,
                msg_id,
                from,
                to,
                *dr_version,
            ),
            EventKind::BackupRestore { device, dr_version, state_hash } => self.apply_backup_restore(
                ev.t,
                device,
                *dr_version,
                state_hash,
            ),
            EventKind::ClockSkew { device, delta_ms } => self.apply_clock_skew(
                ev.t,
                device,
                *delta_ms,
                skew_limit,
            ),
            EventKind::Resync { device, target_dr_version, state_hash } => self.apply_resync(
                ev.t,
                device,
                *target_dr_version,
                state_hash,
            ),
        };
        match r {
            Ok(u) => {
                self.post_step(ev.t);
                Ok(())
            },
            Err(e) => Err(e),
        }
    }

    /// The sampling that closes every step.
    fn post_step(&mut self, t: i64)
        requires
            tracker_bounded_mid(old(self)@),
            -VAL_BOUND <= t <= VAL_BOUND,
        ensures
            final(self)@ == spec_post_step(old(self)@, t as int),
            tracker_bounded(final(self)@),
    {
        let ghost v0 = self@;
        proof {
            lemma_dr_stats(v0.devices);
            lemma_count_dr_ne(v0.devices, spec_min_dr(v0.devices));
            assert forall|i: int|
                0 <= i < self.devices@.len() implies -VAL_BOUND <= (
            #[trigger] self.devices@[i]).1.dr_version <= VAL_BOUND by {
                assert(v0.devices[i] == (self.devices@[i].0, self.devices@[i].1@));
            }
        }
        let stats = current_dr_stats(&self.devices);
        let min_ver = stats.0;
        let dr_delta = stats.2;
        proof {
            if v0.devices.len() > 0 {
                let wi = choose|i: int|
                    0 <= i < v0.devices.len() && (#[trigger] v0.devices[i]).1.dr_version
                        == spec_min_dr(v0.devices);
                let wj = choose|i: int|
                    0 <= i < v0.devices.len() && (#[trigger] v0.devices[i]).1.dr_version
                        == spec_max_dr(v0.devices);
                assert(-VAL_BOUND <= v0.devices[wi].1.dr_version <= VAL_BOUND);
                assert(-VAL_BOUND <= v0.devices[wj].1.dr_version <= VAL_BOUND);
            }
            assert(0 <= spec_dr_delta(v0.devices) <= 2 * VAL_BOUND);
            lemma_scale_mono(2 * VAL_BOUND, v0.dr_samples, v0.dr_samples + 1);
        }
        self.dr_integral = self.dr_integral + dr_delta;
        self.dr_samples = self.dr_samples + 1;
        if dr_delta > self.max_dr_delta {
            self.max_dr_delta = dr_delta;
        }
        let divergence_active = dr_delta > 0;
        if divergence_active && self.divergence_start.is_none() {
            self.divergence_start = Some(t);
            if self.detection_time.is_none() {
                self.detection_time = Some(t);
            }
        }
        if divergence_active && !contains(&self.errors, ViolationCode::DivergenceDetected) {
            self.errors.push(ViolationCode::DivergenceDetected);
        }
        if !divergence_active && self.divergence_start.is_some() && self.recovery_time.is_none() {
            self.recovery_time = Some(t);
        }
        let diverged = count_dr_ne(&self.devices, min_ver);
        if diverged as i64 > self.max_diverged_count {
            self.max_diverged_count = diverged as i64;
        }
        let clock_bound = VAL_BOUND * (self.dr_samples + 1);
        proof {
            assert forall|i: int|
                0 <= i < self.devices@.len() implies -clock_bound <= (
            #[trigger] self.devices@[i]).1.clock_ms <= clock_bound by {
                assert(v0.devices[i] == (self.devices@[i].0, self.devices@[i].1@));
            }
        }
        let cr = clock_range(&self.devices, clock_bound);
        if cr > self.max_clock_skew {
            self.max_clock_skew = cr;
        }
        proof {
            let k = v0.dr_samples;
            lemma_scale_mono(VAL_BOUND as int, k + 1, k + 2);
            lemma_scale_mono(2 * VAL_BOUND, k, k + 1);
            lemma_scale_mono(2 * VAL_BOUND, k + 1, k + 2);
            lemma_scale_mono(MAX_ENTITIES as int, k, k + 1);
            assert(self@ =~~= spec_post_step(v0, t as int));
        }
    }
}


// ---------------------------------------------------------------------------
// Scenario, metrics, verdict.
// ---------------------------------------------------------------------------

/// The scenario's declared outcome contract.
pub struct Expectations {
    pub detected: bool,
    pub max_detection_ms: i64,
    pub max_recovery_ms: i64,
    pub healing_required: bool,
    pub residual_divergence_allowed: bool,
    pub max_dr_version_delta: i64,
    pub max_clock_skew_ms: i64,
    pub allow_message_loss_rate_ppm: u64,
    pub allow_out_of_order_rate_ppm: u64,
    pub expected_error_categories: Vec<ViolationCode>,
    pub max_rollback_events: i64,
}

/// One desynchronization scenario: fleet, timeline, expectations.
pub struct Scenario {
    pub scenario_id: String,
    pub tags: Vec<String>,
    pub devices: Vec<Device>,
    pub timeline: Vec<Event>,
    pub expectations: Expectations,
}

/// The metrics a replay reports, all recomputed from tracker state. Rates
/// are reported as exact numerator/denominator pairs: message loss is
/// `lost_messages / expected_messages`, out-of-order rate is
/// `out_of_order_deliveries / delivered_messages`, and the mean divergence
/// is `dr_delta_integral / dr_samples`. `delivered_messages` counts
/// delivery events, duplicates included; `max_rollback_events` is the
/// largest single backward version move seen, a high-water mark rather
/// than a running sum.
pub struct Metrics {
    pub max_dr_version_delta: i64,
    pub dr_delta_integral: i64,
    pub dr_samples: i64,
    pub max_clock_skew_ms: i64,
    pub diverged_device_count: i64,
    pub max_diverged_device_count: i64,
    pub delivered_messages: i64,
    pub expected_messages: i64,
    pub lost_messages: i64,
    pub out_of_order_deliveries: i64,
    pub skew_violations: i64,
    pub recovery_attempts: i64,
    pub successful_recoveries: i64,
    pub failed_recoveries: i64,
    pub max_rollback_events: i64,
    pub residual_divergence: bool,
}

/// Mathematical value of the metrics.
#[verifier::ext_equal]
pub ghost struct MetricsV {
    pub max_dr_version_delta: int,
    pub dr_delta_integral: int,
    pub dr_samples: int,
    pub max_clock_skew_ms: int,
    pub diverged_device_count: int,
    pub max_diverged_device_count: int,
    pub delivered_messages: int,
    pub expected_messages: int,
    pub lost_messages: int,
    pub out_of_order_deliveries: int,
    pub skew_violations: int,
    pub recovery_attempts: int,
    pub successful_recoveries: int,
    pub failed_recoveries: int,
    pub max_rollback_events: int,
    pub residual_divergence: bool,
}

impl View for Metrics {
    type V = MetricsV;

    open spec fn view(&self) -> MetricsV {
        MetricsV {
            max_dr_version_delta: self.max_dr_version_delta as int,
            dr_delta_integral: self.dr_delta_integral as int,
            dr_samples: self.dr_samples as int,
            max_clock_skew_ms: self.max_clock_skew_ms as int,
            diverged_device_count: self.diverged_device_count as int,
            max_diverged_device_count: self.max_diverged_device_count as int,
            delivered_messages: self.delivered_messages as int,
            expected_messages: self.expected_messages as int,
            lost_messages: self.lost_messages as int,
            out_of_order_deliveries: self.out_of_order_deliveries as int,
            skew_violations: self.skew_violations as int,
            recovery_attempts: self.recovery_attempts as int,
            successful_recoveries: self.successful_recoveries as int,
            failed_recoveries: self.failed_recoveries as int,
            max_rollback_events: self.max_rollback_events as int,
            residual_divergence: self.residual_divergence,
        }
    }
}

/// What one replay reports before evaluation.
pub struct SimulationResult {
    pub detection: bool,
    pub detection_ms: Option<i64>,
    pub recovery_ms: Option<i64>,
    pub errors: Vec<ViolationCode>,
    pub notes: Vec<Note>,
    pub metrics: Metrics,
}

/// Mathematical value of a replay's report.
#[verifier::ext_equal]
pub ghost struct SimulationResultV {
    pub detection: bool,
    pub detection_ms: Option<int>,
    pub recovery_ms: Option<int>,
    pub errors: Seq<ViolationCode>,
    pub notes: Seq<Note>,
    pub metrics: MetricsV,
}

impl View for SimulationResult {
    type V = SimulationResultV;

    open spec fn view(&self) -> SimulationResultV {
        SimulationResultV {
            detection: self.detection,
            detection_ms: opt_int(self.detection_ms),
            recovery_ms: opt_int(self.recovery_ms),
            errors: self.errors@,
            notes: self.notes@,
            metrics: self.metrics@,
        }
    }
}

/// Every value the scenario carries is within the engine's bounds; these
/// are machine limits (the replay arithmetic must fit in 64 bits), not
/// restrictions of the scenario language.
pub open spec fn scenario_bounded(s: Scenario) -> bool {
    &&& s.timeline@.len() <= MAX_EVENTS
    &&& s.devices@.len() <= MAX_ENTITIES
    &&& forall|i: int|
        0 <= i < s.devices@.len() ==> {
            let d = #[trigger] s.devices@[i];
            -VAL_BOUND <= d.dr_version <= VAL_BOUND && -VAL_BOUND <= d.clock_ms <= VAL_BOUND
        }
    &&& forall|i: int| 0 <= i < s.timeline@.len() ==> event_bounded(#[trigger] s.timeline@[i])
}

/// The fleet as first declared: later declarations of the same identity
/// override earlier ones.
pub open spec fn init_devices(ds: Seq<Device>) -> Seq<(String, DeviceStateV)>
    decreases ds.len(),
{
    if ds.len() == 0 {
        Seq::empty()
    } else {
        let m = init_devices(ds.drop_last());
        let d = ds.last();
        let st = DeviceStateV {
            dr_version: d.dr_version as int,
            clock_ms: d.clock_ms as int,
            state_hash: d.state_hash,
        };
        let i = find_key(m, d.device_id);
        if i == -1 {
            m.push((d.device_id, st))
        } else {
            m.update(i, (m[i].0, st))
        }
    }
}

/// The initial fleet is no larger than its declaration list.
pub proof fn lemma_init_devices_len(ds: Seq<Device>)
    ensures
        init_devices(ds).len() <= ds.len(),
    decreases ds.len(),
{
    if ds.len() > 0 {
        lemma_init_devices_len(ds.drop_last());
        lemma_find_key(init_devices(ds.drop_last()), ds.last().device_id);
    }
}

/// The tracker before any event is replayed.
pub open spec fn init_tracker(s: Scenario) -> TrackerV {
    TrackerV {
        devices: init_devices(s.devices@),
        messages: Seq::empty(),
        detection_time: None,
        divergence_start: None,
        recovery_time: None,
        expected: 0,
        out_of_order: 0,
        dr_integral: 0,
        dr_samples: 0,
        max_dr_delta: 0,
        max_diverged_count: 0,
        max_clock_skew: 0,
        skew_violations: 0,
        recovery_attempts: 0,
        successful_recoveries: 0,
        failed_recoveries: 0,
        max_rollback: 0,
        errors: Seq::empty(),
        notes: Seq::empty(),
    }
}

/// The logical times of a timeline, in declaration order.
pub open spec fn timeline_times(s: Scenario) -> Seq<i64> {
    s.timeline@.map_values(|e: Event| e.t)
}

/// The timeline in replay order.
pub open spec fn ordered_events(s: Scenario, order: Seq<usize>) -> Seq<Event> {
    Seq::new(order.len(), |i: int| s.timeline@[order[i] as int])
}

/// Delivery events, summed over every message: each receipt counts, a
/// duplicate receipt included.
pub open spec fn sum_delivered(messages: Seq<(String, MessageV)>) -> int
    decreases messages.len(),
{
    if messages.len() == 0 {
        0
    } else {
        messages[0].1.delivery_events + sum_delivered(messages.drop_first())
    }
}

/// The delivered sum of `n` messages, each with at most `k` delivery
/// events, is at most `n * k`.
pub proof fn lemma_sum_delivered_bound(messages: Seq<(String, MessageV)>, k: int)
    requires
        forall|i: int|
            0 <= i < messages.len() ==> 0 <= (#[trigger] messages[i]).1.delivery_events <= k,
        0 <= k,
    ensures
        0 <= sum_delivered(messages) <= messages.len() * k,
    decreases messages.len(),
{
    if messages.len() > 0 {
        assert(0 <= messages[0].1.delivery_events <= k);
        assert forall|i: int|
            0 <= i < messages.drop_first().len() implies 0 <= (
        #[trigger] messages.drop_first()[i]).1.delivery_events <= k by {
            assert(messages.drop_first()[i] == messages[i + 1]);
        }
        lemma_sum_delivered_bound(messages.drop_first(), k);
        assert((messages.len() - 1) * k + k == messages.len() * k) by (nonlinear_arith);
    }
}

/// Close a replay: latch a divergence start for error-only detections,
/// derive the latencies (clamped to be non-negative), recompute delivery
/// counts and final divergence from the tracker state, and flag message
/// loss and out-of-order delivery. Delivered messages count delivery
/// events (a duplicate receipt counts again); loss is measured against
/// that event count, never against the deduplicated target sets.
pub open spec fn spec_finish(v: TrackerV, first_t: Option<int>) -> SimulationResultV {
    let v1 = if v.divergence_start is None && v.errors.len() > 0 {
        let t0 = match first_t {
            Some(t) => t,
            None => 0,
        };
        TrackerV {
            divergence_start: Some(t0),
            detection_time: if v.detection_time is None {
                Some(t0)
            } else {
                v.detection_time
            },
            ..v
        }
    } else {
        v
    };
    let end_delta = spec_dr_delta(v1.devices);
    let detection_ms = if v1.detection_time is Some && v1.divergence_start is Some {
        let d = v1.detection_time->0 - v1.divergence_start->0;
        Some(
            if d > 0 {
                d
            } else {
                0
            },
        )
    } else {
        None
    };
    let recovery_ms = if v1.recovery_time is Some && v1.detection_time is Some {
        let d = v1.recovery_time->0 - v1.detection_time->0;
        Some(
            if d > 0 {
                d
            } else {
                0
            },
        )
    } else {
        None
    };
    let delivered = sum_delivered(v1.messages);
    let lost = if v1.expected - delivered > 0 {
        v1.expected - delivered
    } else {
        0
    };
    let v2 = if v1.expected > 0 && delivered < v1.expected {
        spec_add_error(v1, ViolationCode::MessageLoss, None)
    } else {
        v1
    };
    let v3 = if v2.out_of_order > 0 {
        spec_add_error(v2, ViolationCode::OutOfOrder, None)
    } else {
        v2
    };
    SimulationResultV {
        detection: v3.divergence_start is Some || v3.errors.len() > 0,
        detection_ms: detection_ms,
        recovery_ms: recovery_ms,
        errors: v3.errors,
        notes: v3.notes,
        metrics: MetricsV {
            max_dr_version_delta: v3.max_dr_delta,
            dr_delta_integral: v3.dr_integral,
            dr_samples: v3.dr_samples,
            max_clock_skew_ms: v3.max_clock_skew,
            diverged_device_count: spec_diverged_count(v3.devices),
            max_diverged_device_count: v3.max_diverged_count,
            delivered_messages: delivered,
            expected_messages: v3.expected,
            lost_messages: lost,
            out_of_order_deliveries: v3.out_of_order,
            skew_violations: v3.skew_violations,
            recovery_attempts: v3.recovery_attempts,
            successful_recoveries: v3.successful_recoveries,
            failed_recoveries: v3.failed_recoveries,
            max_rollback_events: v3.max_rollback,
            residual_divergence: end_delta > 0,
        },
    }
}

/// A whole replay: the timeline in the replay order `order`, folded
/// through the transition system from the declared fleet, then closed.
pub open spec fn spec_simulate(s: Scenario, order: Seq<usize>) -> Result<
    SimulationResultV,
    SimError,
> {
    let events = ordered_events(s, order);
    match spec_run_steps(init_tracker(s), events, s.expectations.max_clock_skew_ms as int) {
        Ok(v) => Ok(
            spec_finish(
                v,
                if events.len() > 0 {
                    Some(events[0].t as int)
                } else {
                    None
                },
            ),
        ),
        Err(e) => Err(e),
    }
}

/// The mathematical value of a replay's outcome.
pub open spec fn result_view(r: Result<SimulationResult, SimError>) -> Result<
    SimulationResultV,
    SimError,
> {
    match r {
        Ok(res) => Ok(res@),
        Err(e) => Err(e),
    }
}


/// Entries of the declared fleet are within the scenario bounds.
pub proof fn lemma_init_devices_bounded(ds: Seq<Device>)
    requires
        forall|i: int|
            0 <= i < ds.len() ==> {
                let d = #[trigger] ds[i];
                -VAL_BOUND <= d.dr_version <= VAL_BOUND && -VAL_BOUND <= d.clock_ms <= VAL_BOUND
            },
    ensures
        forall|i: int|
            0 <= i < init_devices(ds).len() ==> {
                let p = #[trigger] init_devices(ds)[i];
                -VAL_BOUND <= p.1.dr_version <= VAL_BOUND && -VAL_BOUND <= p.1.clock_ms <= VAL_BOUND
            },
    decreases ds.len(),
{
    if ds.len() > 0 {
        assert forall|i: int|
            0 <= i < ds.drop_last().len() implies {
                let d = #[trigger] ds.drop_last()[i];
                -VAL_BOUND <= d.dr_version <= VAL_BOUND && -VAL_BOUND <= d.clock_ms <= VAL_BOUND
            } by {
            assert(ds.drop_last()[i] == ds[i]);
        }
        lemma_init_devices_bounded(ds.drop_last());
        lemma_find_key(init_devices(ds.drop_last()), ds.last().device_id);
        assert(ds.last() == ds[ds.len() - 1]);
    }
}

/// Build the live fleet from its declaration list.
fn build_devices(ds: &Vec<Device>) -> (out: Vec<(String, DeviceState)>)
    ensures
        view_devices(out) == init_devices(ds@),
        out@.len() <= ds@.len(),
{
    let mut out: Vec<(String, DeviceState)> = Vec::new();
    let n = ds.len();
    proof {
        assert(view_devices(out) =~= init_devices(ds@.take(0)));
    }
    for i in 0..n
        invariant
            n == ds@.len(),
            out@.len() <= i,
            view_devices(out) == init_devices(ds@.take(i as int)),
    {
        let ghost m0 = view_devices(out);
        let d = &ds[i];
        let st = DeviceState {
            dr_version: d.dr_version,
            clock_ms: d.clock_ms,
            state_hash: clone_opt_string(&d.state_hash),
        };
        let pos = lookup(&out, &d.device_id);
        proof {
            match pos {
                Some(p) => {
                    assert(m0[p as int].0 == out@[p as int].0);
                    assert forall|j: int| 0 <= j < p implies (#[trigger] m0[j]).0@
                        != d.device_id@ by {
                        assert(m0[j].0 == out@[j].0);
                    }
                    lemma_find_key_at(m0, d.device_id, p as int);
                },
                None => {
                    assert forall|j: int| 0 <= j < m0.len() implies (#[trigger] m0[j]).0@
                        != d.device_id@ by {
                        assert(m0[j].0 == out@[j].0);
                    }
                    lemma_find_key_absent(m0, d.device_id);
                },
            }
        }
        match pos {
            Some(p) => {
                out[p].1 = st;
            },
            None => {
                out.push((d.device_id.clone(), st));
            },
        }
        proof {
            assert(ds@.take(i as int + 1).drop_last() =~= ds@.take(i as int));
            assert(ds@.take(i as int + 1).last() == ds@[i as int]);
            assert(view_devices(out) =~~= init_devices(ds@.take(i as int + 1)));
        }
    }
    proof {
        assert(ds@.take(n as int) =~= ds@);
    }
    out
}

impl DesyncTracker {
    /// Close the replay and report; see `spec_finish`.
    fn finish(self, first_t: Option<i64>) -> (res: SimulationResult)
        requires
            tracker_bounded(self@),
            opt_i64_bounded(first_t),
        ensures
            res@ == spec_finish(self@, opt_int(first_t)),
    {
        let mut tr = self;
        let ghost v0 = tr@;
        let ghost k = v0.dr_samples;
        if tr.divergence_start.is_none() && tr.errors.len() > 0 {
            let t0 = match first_t {
                Some(t) => t,
                None => 0,
            };
            tr.divergence_start = Some(t0);
            if tr.detection_time.is_none() {
                tr.detection_time = Some(t0);
            }
        }
        let ghost v1 = tr@;
        proof {
            assert forall|i: int|
                0 <= i < tr.devices@.len() implies -VAL_BOUND <= (
            #[trigger] tr.devices@[i]).1.dr_version <= VAL_BOUND by {
                assert(v1.devices[i] == (tr.devices@[i].0, tr.devices@[i].1@));
            }
        }
        let end = current_dr_stats(&tr.devices);
        let detection_ms: Option<i64> = match (tr.detection_time, tr.divergence_start) {
            (Some(dt), Some(ds)) => {
                let d = dt - ds;
                Some(
                    if d > 0 {
                        d
                    } else {
                        0
                    },
                )
            },
            _ => None,
        };
        let recovery_ms: Option<i64> = match (tr.recovery_time, tr.detection_time) {
            (Some(rt), Some(dt)) => {
                let d = rt - dt;
                Some(
                    if d > 0 {
                        d
                    } else {
                        0
                    },
                )
            },
            _ => None,
        };
        let ghost mv = v1.messages;
        let nm = tr.messages.len();
        let mut delivered: i64 = 0;
        proof {
            assert(mv.skip(0) =~= mv);
            lemma_scale_mono(MAX_EVENTS as int, k, k + 1);
        }
        for i in 0..nm
            invariant
                nm == mv.len() == tr.messages@.len(),
                forall|j: int| 0 <= j < nm ==> mv[j] == (tr.messages@[j].0, tr.messages@[j].1@),
                forall|j: int|
                    0 <= j < nm ==> 0 <= (#[trigger] mv[j]).1.delivery_events <= MAX_EVENTS,
                nm <= MAX_EVENTS,
                0 <= delivered <= i * (MAX_EVENTS as int),
                delivered + sum_delivered(mv.skip(i as int)) == sum_delivered(mv),
        {
            proof {
                assert(mv.skip(i as int)[0] == mv[i as int]);
                assert(mv.skip(i as int).drop_first() =~= mv.skip(i as int + 1));
            }
            delivered = delivered + tr.messages[i].1.delivery_events;
        }
        proof {
            assert(mv.skip(nm as int) =~= Seq::<(String, MessageV)>::empty());
            lemma_sum_delivered_bound(mv, MAX_EVENTS as int);
        }
        let lost: i64 = if tr.expected - delivered > 0 {
            tr.expected - delivered
        } else {
            0
        };
        if tr.expected > 0 && delivered < tr.expected {
            push_err(&mut tr.errors, ViolationCode::MessageLoss);
        }
        if tr.out_of_order > 0 {
            push_err(&mut tr.errors, ViolationCode::OutOfOrder);
        }
        let diverged = count_dr_ne(&tr.devices, end.0);
        proof {
            lemma_count_dr_ne(view_devices(tr.devices), spec_min_dr(view_devices(tr.devices)));
        }
        let res = SimulationResult {
            detection: tr.divergence_start.is_some() || tr.errors.len() > 0,
            detection_ms,
            recovery_ms,
            errors: tr.errors,
            notes: tr.notes,
            metrics: Metrics {
                max_dr_version_delta: tr.max_dr_delta,
                dr_delta_integral: tr.dr_integral,
                dr_samples: tr.dr_samples,
                max_clock_skew_ms: tr.max_clock_skew,
                diverged_device_count: diverged as i64,
                max_diverged_device_count: tr.max_diverged_count,
                delivered_messages: delivered,
                expected_messages: tr.expected,
                lost_messages: lost,
                out_of_order_deliveries: tr.out_of_order,
                skew_violations: tr.skew_violations,
                recovery_attempts: tr.recovery_attempts,
                successful_recoveries: tr.successful_recoveries,
                failed_recoveries: tr.failed_recoveries,
                max_rollback_events: tr.max_rollback,
                residual_divergence: end.2 > 0,
            },
        };
        proof {
            assert(res@ =~~= spec_finish(v0, opt_int(first_t)));
        }
        res
    }
}

/// Check one optional value against the scenario value bound.
fn opt_i64_within(o: &Option<i64>) -> (b: bool)
    ensures
        b == opt_i64_bounded(*o),
{
    match o {
        Some(x) => -VAL_BOUND <= *x && *x <= VAL_BOUND,
        None => true,
    }
}

/// Check one event against the scenario value bounds; see `event_bounded`.
fn event_within_bounds(ev: &Event) -> (b: bool)
    ensures
        b == event_bounded(*ev),
{
    if !(-VAL_BOUND <= ev.t && ev.t <= VAL_BOUND) {
        return false;
    }
    match &ev.kind {
        EventKind::SendMsg { to, dr_version, .. } => to.len() <= MAX_ENTITIES && opt_i64_within(
            dr_version,
        ),
        EventKind::RecvMsg { apply_dr_version, .. } => opt_i64_within(apply_dr_version),
        EventKind::DropMsg { .. } => true,
        EventKind::ReplayMsg { to, dr_version, .. } => to.len() <= MAX_ENTITIES && opt_i64_within(
            dr_version,
        ),
        EventKind::BackupRestore { dr_version, .. } => -VAL_BOUND <= *dr_version && *dr_version
            <= VAL_BOUND,
        EventKind::ClockSkew { delta_ms, .. } => -VAL_BOUND <= *delta_ms && *delta_ms <= VAL_BOUND,
        EventKind::Resync { target_dr_version, .. } => -VAL_BOUND <= *target_dr_version
            && *target_dr_version <= VAL_BOUND,
    }
}

/// Whether a scenario's values are within the engine's machine limits, so
/// that `simulate` and `run_scenario` accept it; see `scenario_bounded`.
pub fn scenario_within_bounds(s: &Scenario) -> (b: bool)
    ensures
        b == scenario_bounded(*s),
{
    if s.timeline.len() > MAX_EVENTS || s.devices.len() > MAX_ENTITIES {
        return false;
    }
    let nd = s.devices.len();
    for i in 0..nd
        invariant
            nd == s.devices@.len(),
            forall|j: int|
                0 <= j < i ==> {
                    let d = #[trigger] s.devices@[j];
                    -VAL_BOUND <= d.dr_version <= VAL_BOUND && -VAL_BOUND <= d.clock_ms
                        <= VAL_BOUND
                },
    {
        let d = &s.devices[i];
        if !(-VAL_BOUND <= d.dr_version && d.dr_version <= VAL_BOUND && -VAL_BOUND <= d.clock_ms
            && d.clock_ms <= VAL_BOUND) {
            return false;
        }
    }
    let nt = s.timeline.len();
    for i in 0..nt
        invariant
            nt == s.timeline@.len(),
            forall|j: int| 0 <= j < i ==> event_bounded(#[trigger] s.timeline@[j]),
    {
        if !event_within_bounds(&s.timeline[i]) {
            return false;
        }
    }
    true
}

/// Replay one scenario: order its timeline deterministically, fold every
/// event through the tracker, and report. The result is exactly the
/// mathematical replay `spec_simulate` of the scenario under its (unique)
/// replay order; a fatal corpus error aborts the replay and is returned.
pub fn simulate(s: &Scenario) -> (r: Result<SimulationResult, SimError>)
    requires
        scenario_bounded(*s),
    ensures
        exists|order: Seq<usize>|
            #![auto]
            is_replay_order(timeline_times(*s), order) && spec_simulate(*s, order) == result_view(
                r,
            ),
{
    let n = s.timeline.len();
    let mut times: Vec<i64> = Vec::new();
    proof {
        assert(times@ =~= timeline_times(*s).take(0));
    }
    for i in 0..n
        invariant
            n == s.timeline@.len(),
            times@ == timeline_times(*s).take(i as int),
    {
        times.push(s.timeline[i].t);
        proof {
            assert(times@ =~= timeline_times(*s).take(i as int + 1));
        }
    }
    proof {
        assert(timeline_times(*s).take(n as int) =~= timeline_times(*s));
    }
    let order = schedule(&times);
    let ghost events = ordered_events(*s, order@);
    let mut tracker = DesyncTracker {
        devices: build_devices(&s.devices),
        messages: Vec::new(),
        detection_time: None,
        divergence_start: None,
        recovery_time: None,
        expected: 0,
        out_of_order: 0,
        dr_integral: 0,
        dr_samples: 0,
        max_dr_delta: 0,
        max_diverged_count: 0,
        max_clock_skew: 0,
        skew_violations: 0,
        recovery_attempts: 0,
        successful_recoveries: 0,
        failed_recoveries: 0,
        max_rollback: 0,
        errors: Vec::new(),
        notes: Vec::new(),
    };
    let ghost init_v = init_tracker(*s);
    proof {
        assert(tracker@ =~~= init_v);
        lemma_init_devices_len(s.devices@);
        lemma_init_devices_bounded(s.devices@);
        assert(tracker_bounded(tracker@));
        assert(events.take(0) =~= Seq::<Event>::empty());
    }
    let skew_limit = s.expectations.max_clock_skew_ms;
    let m = order.len();
    for k in 0..m
        invariant
            scenario_bounded(*s),
            m == n == s.timeline@.len(),
            order@.len() == m,
            is_replay_order(timeline_times(*s), order@),
            events == ordered_events(*s, order@),
            events.len() == m,
            tracker_bounded(tracker@),
            tracker@.dr_samples == k,
            init_v == init_tracker(*s),
            skew_limit == s.expectations.max_clock_skew_ms,
            spec_run_steps(init_v, events.take(k as int), skew_limit as int) == Ok::<
                TrackerV,
                SimError,
            >(tracker@),
    {
        let idx = order[k];
        proof {
            assert(order@[k as int] < s.timeline@.len());
            assert(events[k as int] == s.timeline@[idx as int]);
            assert(event_bounded(events[k as int]));
        }
        let ghost pre = tracker@;
        let r = tracker.apply(&s.timeline[idx], skew_limit);
        match r {
            Ok(u) => {
                proof {
                    lemma_run_decompose(init_v, events.take(k as int + 1), skew_limit as int, k as int);
                    assert(events.take(k as int + 1).take(k as int) =~= events.take(k as int));
                    let single = events.take(k as int + 1).skip(k as int);
                    assert(single.len() == 1 && single[0] == events[k as int]);
                    assert(single.drop_first() =~= Seq::<Event>::empty());
                    assert(spec_step(pre, events[k as int], skew_limit as int) == Ok::<
                        TrackerV,
                        SimError,
                    >(tracker@));
                    assert(spec_run_steps(pre, single, skew_limit as int) == Ok::<
                        TrackerV,
                        SimError,
                    >(tracker@)) by {
                        reveal_with_fuel(spec_run_steps, 2);
                    }
                    assert(spec_run_steps(init_v, events.take(k as int + 1), skew_limit as int)
                        == Ok::<TrackerV, SimError>(tracker@));
                }
            },
            Err(e) => {
                proof {
                    lemma_run_decompose(init_v, events, skew_limit as int, k as int);
                    assert(events.skip(k as int)[0] == events[k as int]);
                    assert(spec_run_steps(init_v, events, skew_limit as int) == Err::<
                        TrackerV,
                        SimError,
                    >(e));
                    assert(spec_simulate(*s, order@) == result_view(
                        Err::<SimulationResult, SimError>(e),
                    ));
                }
                return Err(e);
            },
        }
    }
    proof {
        assert(events.take(m as int) =~= events);
    }
    let first_t: Option<i64> = if n > 0 {
        let idx0 = order[0];
        proof {
            assert(events[0] == s.timeline@[idx0 as int]);
            assert(event_bounded(events[0]));
        }
        Some(s.timeline[idx0].t)
    } else {
        None
    };
    let res = tracker.finish(first_t);
    proof {
        assert(spec_simulate(*s, order@) == result_view(Ok::<SimulationResult, SimError>(res)));
    }
    Ok(res)
}


// ---------------------------------------------------------------------------
// Expectation evaluation.
// ---------------------------------------------------------------------------

/// One named reason a scenario's outcome failed its expectations.
#[derive(Clone, Copy, Debug, PartialEq, Eq, Structural)]
pub enum FailureReason {
    DetectionMismatch,
    MissingDetectionMs,
    DetectionSla,
    UnexpectedDetectionMs,
    MissingRecoveryMs,
    RecoverySla,
    ResidualDivergence,
    DrDeltaExceeded,
    ClockSkewExceeded,
    MessageLossRate,
    OutOfOrderRate,
    RollbackExceeded,
    MissingErrorCategories,
}

impl FailureReason {
    /// The wire name of the reason, as it appears in result files.
    pub fn as_str(&self) -> (r: &'static str)
        ensures
            r@ == self.name(),
    {
        proof {
            reveal_strlit("detection_mismatch");
            reveal_strlit("missing_detection_ms");
            reveal_strlit("detection_sla");
            reveal_strlit("unexpected_detection_ms");
            reveal_strlit("missing_recovery_ms");
            reveal_strlit("recovery_sla");
            reveal_strlit("residual_divergence");
            reveal_strlit("dr_delta_exceeded");
            reveal_strlit("clock_skew_exceeded");
            reveal_strlit("message_loss_rate");
            reveal_strlit("out_of_order_rate");
            reveal_strlit("rollback_exceeded");
            reveal_strlit("missing_error_categories");
        }
        match self {
            FailureReason::DetectionMismatch => "detection_mismatch",
            FailureReason::MissingDetectionMs => "missing_detection_ms",
            FailureReason::DetectionSla => "detection_sla",
            FailureReason::UnexpectedDetectionMs => "unexpected_detection_ms",
            FailureReason::MissingRecoveryMs => "missing_recovery_ms",
            FailureReason::RecoverySla => "recovery_sla",
            FailureReason::ResidualDivergence => "residual_divergence",
            FailureReason::DrDeltaExceeded => "dr_delta_exceeded",
            FailureReason::ClockSkewExceeded => "clock_skew_exceeded",
            FailureReason::MessageLossRate => "message_loss_rate",
            FailureReason::OutOfOrderRate => "out_of_order_rate",
            FailureReason::RollbackExceeded => "rollback_exceeded",
            FailureReason::MissingErrorCategories => "missing_error_categories",
        }
    }

    /// The wire name as a mathematical character sequence.
    pub open spec fn name(self) -> Seq<char> {
        match self {
            FailureReason::DetectionMismatch => "detection_mismatch"@,
            FailureReason::MissingDetectionMs => "missing_detection_ms"@,
            FailureReason::DetectionSla => "detection_sla"@,
            FailureReason::UnexpectedDetectionMs => "unexpected_detection_ms"@,
            FailureReason::MissingRecoveryMs => "missing_recovery_ms"@,
            FailureReason::RecoverySla => "recovery_sla"@,
            FailureReason::ResidualDivergence => "residual_divergence"@,
            FailureReason::DrDeltaExceeded => "dr_delta_exceeded"@,
            FailureReason::ClockSkewExceeded => "clock_skew_exceeded"@,
            FailureReason::MessageLossRate => "message_loss_rate"@,
            FailureReason::OutOfOrderRate => "out_of_order_rate"@,
            FailureReason::RollbackExceeded => "rollback_exceeded"@,
            FailureReason::MissingErrorCategories => "missing_error_categories"@,
        }
    }
}

/// A required violation code the replay never produced.
pub open spec fn spec_missing_categories(
    exp_codes: Seq<ViolationCode>,
    errors: Seq<ViolationCode>,
) -> bool {
    exists|i: int| 0 <= i < exp_codes.len() && !errors.contains(#[trigger] exp_codes[i])
}

/// Evaluate a replay's outcome against the scenario's expectations: the
/// status is `Pass` exactly when no check fails, and the failure list is
/// exactly `spec_eval` of the outcome.
/// The failing checks of the detection block: boolean match, and the
/// presence and ceiling of the detection latency.
pub open spec fn spec_eval_detection(exp: Expectations, res: SimulationResultV) -> Seq<
    FailureReason,
> {
    (if res.detection != exp.detected {
        seq![FailureReason::DetectionMismatch]
    } else {
        Seq::empty()
    }) + if exp.detected {
        match res.detection_ms {
            None => seq![FailureReason::MissingDetectionMs],
            Some(ms) => if exp.max_detection_ms > 0 && ms > exp.max_detection_ms {
                seq![FailureReason::DetectionSla]
            } else {
                Seq::empty()
            },
        }
    } else {
        match res.detection_ms {
            Some(ms) => if ms != 0 {
                seq![FailureReason::UnexpectedDetectionMs]
            } else {
                Seq::empty()
            },
            None => Seq::empty(),
        }
    }
}

/// The failing checks of the healing block: recovery latency and residual
/// divergence, checked only when healing is required.
pub open spec fn spec_eval_healing(exp: Expectations, res: SimulationResultV) -> Seq<
    FailureReason,
> {
    if exp.healing_required {
        (match res.recovery_ms {
            None => seq![FailureReason::MissingRecoveryMs],
            Some(ms) => if exp.max_recovery_ms > 0 && ms > exp.max_recovery_ms {
                seq![FailureReason::RecoverySla]
            } else {
                Seq::empty()
            },
        }) + if !exp.residual_divergence_allowed && res.metrics.residual_divergence {
            seq![FailureReason::ResidualDivergence]
        } else {
            Seq::empty()
        }
    } else {
        Seq::empty()
    }
}

/// The failing numeric ceilings, each checked independently.
pub open spec fn spec_eval_ceilings(exp: Expectations, res: SimulationResultV) -> Seq<
    FailureReason,
> {
    (if res.metrics.max_dr_version_delta > exp.max_dr_version_delta {
        seq![FailureReason::DrDeltaExceeded]
    } else {
        Seq::<FailureReason>::empty()
    }) + (if res.metrics.max_clock_skew_ms > exp.max_clock_skew_ms {
        seq![FailureReason::ClockSkewExceeded]
    } else {
        Seq::<FailureReason>::empty()
    }) + (if res.metrics.expected_messages > 0 && res.metrics.lost_messages * (PPM_SCALE as int)
        > exp.allow_message_loss_rate_ppm * res.metrics.expected_messages {
        seq![FailureReason::MessageLossRate]
    } else {
        Seq::<FailureReason>::empty()
    }) + (if res.metrics.delivered_messages > 0 && res.metrics.out_of_order_deliveries * (
    PPM_SCALE as int) > exp.allow_out_of_order_rate_ppm * res.metrics.delivered_messages {
        seq![FailureReason::OutOfOrderRate]
    } else {
        Seq::<FailureReason>::empty()
    }) + (if res.metrics.max_rollback_events > exp.max_rollback_events {
        seq![FailureReason::RollbackExceeded]
    } else {
        Seq::<FailureReason>::empty()
    })
}

/// The failing containment check of the required violation codes.
pub open spec fn spec_eval_categories(exp: Expectations, res: SimulationResultV) -> Seq<
    FailureReason,
> {
    if spec_missing_categories(exp.expected_error_categories@, res.errors) {
        seq![FailureReason::MissingErrorCategories]
    } else {
        Seq::empty()
    }
}

fn eval_detection(exp: &Expectations, res: &SimulationResult, failures: &mut Vec<FailureReason>)
    ensures
        final(failures)@ == old(failures)@ + spec_eval_detection(*exp, res@),
{
    let ghost f0 = failures@;
    if res.detection != exp.detected {
        failures.push(FailureReason::DetectionMismatch);
    }
    if exp.detected {
        match res.detection_ms {
            None => {
                failures.push(FailureReason::MissingDetectionMs);
            },
            Some(ms) => {
                if exp.max_detection_ms > 0 && ms > exp.max_detection_ms {
                    failures.push(FailureReason::DetectionSla);
                }
            },
        }
    } else {
        if let Some(ms) = res.detection_ms {
            if ms != 0 {
                failures.push(FailureReason::UnexpectedDetectionMs);
            }
        }
    }
    proof {
        assert(failures@ =~= f0 + spec_eval_detection(*exp, res@));
    }
}

fn eval_healing(exp: &Expectations, res: &SimulationResult, failures: &mut Vec<FailureReason>)
    ensures
        final(failures)@ == old(failures)@ + spec_eval_healing(*exp, res@),
{
    let ghost f0 = failures@;
    if exp.healing_required {
        match res.recovery_ms {
            None => {
                failures.push(FailureReason::MissingRecoveryMs);
            },
            Some(ms) => {
                if exp.max_recovery_ms > 0 && ms > exp.max_recovery_ms {
                    failures.push(FailureReason::RecoverySla);
                }
            },
        }
        if !exp.residual_divergence_allowed && res.metrics.residual_divergence {
            failures.push(FailureReason::ResidualDivergence);
        }
    }
    proof {
        assert(failures@ =~= f0 + spec_eval_healing(*exp, res@));
    }
}

fn eval_ceilings(exp: &Expectations, res: &SimulationResult, failures: &mut Vec<FailureReason>)
    requires
        0 <= res.metrics.lost_messages,
        0 <= res.metrics.expected_messages,
        0 <= res.metrics.out_of_order_deliveries,
        0 <= res.metrics.delivered_messages,
    ensures
        final(failures)@ == old(failures)@ + spec_eval_ceilings(*exp, res@),
{
    let ghost f0 = failures@;
    if res.metrics.max_dr_version_delta > exp.max_dr_version_delta {
        failures.push(FailureReason::DrDeltaExceeded);
    }
    if res.metrics.max_clock_skew_ms > exp.max_clock_skew_ms {
        failures.push(FailureReason::ClockSkewExceeded);
    }
    if ratio_exceeds(
        res.metrics.lost_messages as u64,
        res.metrics.expected_messages as u64,
        exp.allow_message_loss_rate_ppm,
    ) {
        failures.push(FailureReason::MessageLossRate);
    }
    if ratio_exceeds(
        res.metrics.out_of_order_deliveries as u64,
        res.metrics.delivered_messages as u64,
        exp.allow_out_of_order_rate_ppm,
    ) {
        failures.push(FailureReason::OutOfOrderRate);
    }
    if res.metrics.max_rollback_events > exp.max_rollback_events {
        failures.push(FailureReason::RollbackExceeded);
    }
    proof {
        assert(failures@ =~= f0 + spec_eval_ceilings(*exp, res@));
    }
}

fn eval_categories(exp: &Expectations, res: &SimulationResult, failures: &mut Vec<FailureReason>)
    ensures
        final(failures)@ == old(failures)@ + spec_eval_categories(*exp, res@),
{
    let ghost f0 = failures@;
    let nc = exp.expected_error_categories.len();
    let mut missing = false;
    for i in 0..nc
        invariant
            nc == exp.expected_error_categories@.len(),
            missing == exists|j: int|
                0 <= j < i && !res.errors@.contains(#[trigger] exp.expected_error_categories@[j]),
            failures@ == f0,
    {
        if !contains(&res.errors, exp.expected_error_categories[i]) {
            missing = true;
        }
    }
    if missing {
        failures.push(FailureReason::MissingErrorCategories);
    }
    proof {
        assert(failures@ =~= f0 + spec_eval_categories(*exp, res@));
    }
}

/// Every failing check of a replay's outcome against the scenario's
/// expectations, in a stable order; no check short-circuits another.
pub open spec fn spec_eval(exp: Expectations, res: SimulationResultV) -> Seq<FailureReason> {
    spec_eval_detection(exp, res) + spec_eval_healing(exp, res) + spec_eval_ceilings(exp, res)
        + spec_eval_categories(exp, res)
}

/// Evaluate a replay's outcome against the scenario's expectations: the
/// status is `Pass` exactly when no check fails, and the failure list is
/// exactly `spec_eval` of the outcome.
pub fn eval_expectations(exp: &Expectations, res: &SimulationResult) -> (r: (
    Status,
    Vec<FailureReason>,
))
    requires
        0 <= res.metrics.lost_messages,
        0 <= res.metrics.expected_messages,
        0 <= res.metrics.out_of_order_deliveries,
        0 <= res.metrics.delivered_messages,
    ensures
        r.1@ == spec_eval(*exp, res@),
        r.0 == (if spec_eval(*exp, res@).len() == 0 {
            Status::Pass
        } else {
            Status::Fail
        }),
{
    let mut failures: Vec<FailureReason> = Vec::new();
    eval_detection(exp, res, &mut failures);
    eval_healing(exp, res, &mut failures);
    eval_ceilings(exp, res, &mut failures);
    eval_categories(exp, res, &mut failures);
    proof {
        assert(failures@ =~= spec_eval(*exp, res@));
    }
    let status = if failures.len() == 0 {
        Status::Pass
    } else {
        Status::Fail
    };
    (status, failures)
}

/// What one scenario came to: a status, which checks failed, the
/// violations seen along the way, the metrics, and any fatal corpus error.
pub struct Verdict {
    pub status: Status,
    pub failures: Vec<FailureReason>,
    pub violation_codes: Vec<ViolationCode>,
    pub metrics: Option<Metrics>,
    pub corpus_error: Option<SimError>,
    pub notes: Vec<Note>,
}

/// Mathematical value of a verdict.
#[verifier::ext_equal]
pub ghost struct VerdictV {
    pub status: Status,
    pub failures: Seq<FailureReason>,
    pub violation_codes: Seq<ViolationCode>,
    pub metrics: Option<MetricsV>,
    pub corpus_error: Option<SimError>,
    pub notes: Seq<Note>,
}

impl View for Verdict {
    type V = VerdictV;

    open spec fn view(&self) -> VerdictV {
        VerdictV {
            status: self.status,
            failures: self.failures@,
            violation_codes: self.violation_codes@,
            metrics: match self.metrics {
                Some(m) => Some(m@),
                None => None,
            },
            corpus_error: self.corpus_error,
            notes: self.notes@,
        }
    }
}

/// The verdict of one scenario under a given replay order: the replay's
/// outcome evaluated against the scenario's expectations, or a failed
/// verdict carrying the fatal corpus error.
pub open spec fn spec_verdict(s: Scenario, order: Seq<usize>) -> VerdictV {
    match spec_simulate(s, order) {
        Ok(res) => VerdictV {
            status: if spec_eval(s.expectations, res).len() == 0 {
                Status::Pass
            } else {
                Status::Fail
            },
            failures: spec_eval(s.expectations, res),
            violation_codes: res.errors,
            metrics: Some(res.metrics),
            corpus_error: None,
            notes: res.notes,
        },
        Err(e) => VerdictV {
            status: Status::Fail,
            failures: Seq::empty(),
            violation_codes: Seq::empty(),
            metrics: None,
            corpus_error: Some(e),
            notes: Seq::empty(),
        },
    }
}

/// Replay one scenario and evaluate it: the verdict is exactly
/// `spec_verdict` of the scenario under its (unique) replay order.
#[verifier::rlimit(100)]
#[verifier::spinoff_prover]
pub fn run_scenario(s: &Scenario) -> (v: Verdict)
    requires
        scenario_bounded(*s),
    ensures
        exists|order: Seq<usize>|
            #![auto]
            is_replay_order(timeline_times(*s), order) && v@ == spec_verdict(*s, order),
{
    let r = simulate(s);
    let ghost order = choose|order: Seq<usize>|
        #![auto]
        is_replay_order(timeline_times(*s), order) && spec_simulate(*s, order) == result_view(r);
    match r {
        Ok(res) => {
            proof {
                lemma_sim_result_nonneg(*s, order, res@);
            }
            let (status, failures) = eval_expectations(&s.expectations, &res);
            let v = Verdict {
                status,
                failures,
                violation_codes: res.errors,
                metrics: Some(res.metrics),
                corpus_error: None,
                notes: res.notes,
            };
            proof {
                assert(v@ =~~= spec_verdict(*s, order));
            }
            v
        },
        Err(e) => {
            let v = Verdict {
                status: Status::Fail,
                failures: Vec::new(),
                violation_codes: Vec::new(),
                metrics: None,
                corpus_error: Some(e),
                notes: Vec::new(),
            };
            proof {
                assert(v@ =~~= spec_verdict(*s, order));
            }
            v
        },
    }
}

/// Counts a successful replay reports are non-negative.
pub proof fn lemma_sim_result_nonneg(s: Scenario, order: Seq<usize>, res: SimulationResultV)
    requires
        spec_simulate(s, order) == Ok::<SimulationResultV, SimError>(res),
    ensures
        0 <= res.metrics.lost_messages,
        0 <= res.metrics.expected_messages,
        0 <= res.metrics.out_of_order_deliveries,
        0 <= res.metrics.delivered_messages,
{
    let events = ordered_events(s, order);
    let run = spec_run_steps(init_tracker(s), events, s.expectations.max_clock_skew_ms as int);
    lemma_run_nonneg(init_tracker(s), events, s.expectations.max_clock_skew_ms as int);
    lemma_sum_delivered_nonneg(run->Ok_0.messages);
}

/// Every message carries a non-negative delivery count.
pub open spec fn messages_nonneg(messages: Seq<(String, MessageV)>) -> bool {
    forall|i: int| 0 <= i < messages.len() ==> (#[trigger] messages[i]).1.delivery_events >= 0
}

/// The delivered sum of non-negative counts is never negative.
pub proof fn lemma_sum_delivered_nonneg(messages: Seq<(String, MessageV)>)
    requires
        messages_nonneg(messages),
    ensures
        0 <= sum_delivered(messages),
    decreases messages.len(),
{
    if messages.len() > 0 {
        assert(messages[0].1.delivery_events >= 0);
        assert forall|i: int|
            0 <= i < messages.drop_first().len() implies (
        #[trigger] messages.drop_first()[i]).1.delivery_events >= 0 by {
            assert(messages.drop_first()[i] == messages[i + 1]);
        }
        lemma_sum_delivered_nonneg(messages.drop_first());
    }
}

/// One replay step keeps the counters non-negative.
#[verifier::rlimit(100)]
pub proof fn lemma_step_nonneg(v: TrackerV, ev: Event, skew_limit: int)
    requires
        0 <= v.expected,
        0 <= v.out_of_order,
        messages_nonneg(v.messages),
    ensures
        spec_step(v, ev, skew_limit) matches Ok(w) ==> 0 <= w.expected && 0 <= w.out_of_order
            && messages_nonneg(w.messages),
{
    let t = ev.t as int;
    let vb = TrackerV { devices: spec_bump_clocks(v.devices, t), ..v };
    assert(messages_nonneg(vb.messages));
    let r = match ev.kind {
        EventKind::SendMsg { msg_id, from, to, dr_version, state_hash } => {
            lemma_find_key(vb.messages, msg_id);
            spec_send(vb, t, msg_id, from, to@, dr_version, state_hash)
        },
        EventKind::RecvMsg { msg_id, device, apply_dr_version, state_hash } => {
            lemma_find_key(vb.messages, msg_id);
            spec_recv(vb, t, msg_id, device, apply_dr_version, state_hash)
        },
        EventKind::DropMsg { msg_id, targets } => {
            lemma_find_key(vb.messages, msg_id);
            spec_drop(vb, t, msg_id, opt_targets_view(targets))
        },
        EventKind::ReplayMsg { msg_id, from, to, dr_version } => {
            lemma_find_key(vb.messages, msg_id);
            spec_replay(vb, t, msg_id, from, to@, dr_version)
        },
        EventKind::BackupRestore { device, dr_version, state_hash } => spec_backup_restore(
            vb,
            t,
            device,
            dr_version,
            state_hash,
        ),
        EventKind::ClockSkew { device, delta_ms } => spec_clock_skew(vb, t, device, delta_ms, skew_limit),
        EventKind::Resync { device, target_dr_version, state_hash } => spec_resync(
            vb,
            t,
            device,
            target_dr_version,
            state_hash,
        ),
    };
    match r {
        Ok(w1) => {
            assert forall|i: int|
                0 <= i < w1.messages.len() implies (#[trigger] w1.messages[i]).1.delivery_events
                >= 0 by {
                if i < vb.messages.len() {
                    assert(vb.messages[i].1.delivery_events >= 0);
                }
            }
            assert(messages_nonneg(w1.messages));
            let w = spec_post_step(w1, t);
            assert(w.messages == w1.messages);
            assert(spec_step(v, ev, skew_limit) == Ok::<TrackerV, SimError>(w));
        },
        Err(e) => {
            assert(spec_step(v, ev, skew_limit) == Err::<TrackerV, SimError>(e));
        },
    }
}

/// The replay fold keeps its counters non-negative.
pub proof fn lemma_run_nonneg(v: TrackerV, events: Seq<Event>, skew_limit: int)
    requires
        0 <= v.expected,
        0 <= v.out_of_order,
        messages_nonneg(v.messages),
    ensures
        spec_run_steps(v, events, skew_limit) matches Ok(w) ==> 0 <= w.expected && 0
            <= w.out_of_order && messages_nonneg(w.messages),
    decreases events.len(),
{
    if events.len() > 0 {
        lemma_step_nonneg(v, events[0], skew_limit);
        match spec_step(v, events[0], skew_limit) {
            Ok(v1) => {
                lemma_run_nonneg(v1, events.drop_first(), skew_limit);
            },
            Err(e) => {},
        }
    }
}

// ---------------------------------------------------------------------------
// Laws of the desynchronization engine.
// ---------------------------------------------------------------------------

/// Two runs of one scenario agree completely: the replay order is unique,
/// and everything reported is a function of the scenario and that order
/// alone.
pub proof fn lemma_replay_idempotent(s: Scenario, o1: Seq<usize>, o2: Seq<usize>)
    requires
        is_replay_order(timeline_times(s), o1),
        is_replay_order(timeline_times(s), o2),
    ensures
        spec_simulate(s, o1) == spec_simulate(s, o2),
        spec_verdict(s, o1) == spec_verdict(s, o2),
{
    lemma_replay_order_unique(timeline_times(s), o1, o2);
}

/// Redeclaring the timeline by any stable permutation — one that keeps
/// equal-time events in their relative order — changes nothing: the two
/// scenarios replay the same event sequence and come to identical
/// verdicts.
#[verifier::rlimit(100)]
#[verifier::spinoff_prover]
pub proof fn lemma_replay_permutation_invariant(
    s1: Scenario,
    s2: Scenario,
    perm: Seq<usize>,
    o1: Seq<usize>,
    o2: Seq<usize>,
)
    requires
        s1.timeline@.len() <= usize::MAX,
        is_stable_permutation(timeline_times(s1), perm),
        s2.timeline@ == Seq::new(perm.len(), |i: int| s1.timeline@[perm[i] as int]),
        s2.devices == s1.devices,
        s2.expectations == s1.expectations,
        is_replay_order(timeline_times(s1), o1),
        is_replay_order(timeline_times(s2), o2),
    ensures
        spec_simulate(s1, o1) == spec_simulate(s2, o2),
        spec_verdict(s1, o1) == spec_verdict(s2, o2),
{
    let t1 = timeline_times(s1);
    assert(timeline_times(s2) =~= permuted_times(t1, perm));
    lemma_replay_order_permuted(t1, perm, o2);
    let mapped = Seq::new(o2.len(), |k: int| perm[o2[k] as int]);
    lemma_replay_order_unique(t1, o1, mapped);
    assert(ordered_events(s1, o1) =~= ordered_events(s2, o2)) by {
        assert forall|k: int| 0 <= k < o1.len() implies ordered_events(s1, o1)[k]
            == ordered_events(s2, o2)[k] by {
            assert(o1[k] == mapped[k]);
            assert(mapped[k] == perm[o2[k] as int]);
            assert(s2.timeline@[o2[k] as int] == s1.timeline@[perm[o2[k] as int] as int]);
        }
    }
    assert(init_tracker(s1) =~~= init_tracker(s2));
    assert(spec_simulate(s1, o1) == spec_simulate(s2, o2));
    assert(spec_verdict(s1, o1) =~~= spec_verdict(s2, o2));
}

/// A `resync` to a version below the device's current one raises the
/// rollback mark to exactly that backward delta when the delta is a new
/// maximum, and a resync at or above the current version never changes it.
///
/// The mark is deliberately a high-water mark of single backward moves,
/// not their running sum: the expectation contract compares it against a
/// ceiling (`max_rollback_events`), and a ceiling on the largest single
/// rollback is what that check means. A reading under which each backward
/// resync accumulates its delta would make the ceiling a budget instead;
/// this engine keeps the high-water-mark reading throughout, and a resync
/// at or above the current version never
/// changes it.
pub proof fn lemma_resync_rollback(
    v: TrackerV,
    t: int,
    device: String,
    target_dr_version: i64,
    hash: Option<String>,
)
    requires
        has_key(v.devices, device),
    ensures
        ({
            let di = find_key(v.devices, device);
            let cur = v.devices[di].1.dr_version;
            let r = spec_resync(v, t, device, target_dr_version, hash);
            &&& r is Ok
            &&& r->Ok_0.max_rollback == if target_dr_version < cur && cur - target_dr_version
                > v.max_rollback {
                cur - target_dr_version
            } else {
                v.max_rollback
            }
            &&& r->Ok_0.max_rollback >= v.max_rollback
            &&& target_dr_version >= cur ==> r->Ok_0.max_rollback == v.max_rollback
        }),
{
}

/// If the scenario requires a violation code that the replay never
/// produced, the verdict fails and names the missing categories,
/// regardless of every other check.
pub proof fn lemma_expectation_containment(s: Scenario, order: Seq<usize>, res: SimulationResultV)
    requires
        spec_simulate(s, order) == Ok::<SimulationResultV, SimError>(res),
        spec_missing_categories(s.expectations.expected_error_categories@, res.errors),
    ensures
        spec_verdict(s, order).status == Status::Fail,
        spec_verdict(s, order).failures.contains(FailureReason::MissingErrorCategories),
{
    let f = spec_eval(s.expectations, res);
    assert(f[f.len() - 1] == FailureReason::MissingErrorCategories);
}

} // verus!
