//! Epoch-fork tracker.
//!
//! Replays an epoch graph's issuance stream: a fork is flagged when a newly
//! issued node's hash disagrees with a hash already observed at the same
//! epoch, or with a sibling already recorded under the same parent. The
//! fork counts as created at the earliest issuance among the conflicting
//! siblings and as detected at the issuance that makes it observable.
//! Hash-chain continuity is checked against the parent's actual hash. After
//! replay the winning branch is chosen by a deterministic, fully specified
//! tie-break: depth descending, epoch descending, timestamp ascending, hash
//! descending (byte-lexicographic), first occurrence winning full ties.

use vstd::prelude::*;

use crate::codes::Status;
use crate::codes::ViolationCode;
use crate::codes::contains;
use crate::codes::push_err;
use crate::codes::spec_push_err;
use crate::desync::MAX_ENTITIES;
use crate::desync::MAX_EVENTS;
use crate::desync::VAL_BOUND;
use crate::desync::find_key;
use crate::desync::has_key;
use crate::desync::lemma_find_key;
use crate::desync::lemma_find_key_absent;
use crate::desync::lemma_find_key_at;
use crate::desync::opt_int;
use crate::scheduler::is_replay_order;
use crate::scheduler::schedule;

verus! {

/// One node of the epoch graph.
pub struct EpochNode {
    pub node_id: String,
    pub epoch_id: i64,
    pub eare_hash: String,
    pub previous_epoch_hash: Option<String>,
    pub membership_digest: Option<String>,
    pub parent_id: Option<String>,
    pub issued_by: String,
    pub timestamp_ms: i64,
}

/// One edge of the epoch graph, informational only.
pub struct EpochEdge {
    pub from: String,
    pub to: String,
    pub edge_type: String,
}

/// The edge type an edge carries when the corpus declares none.
pub fn default_edge_type() -> (r: String)
    ensures
        r@ == "linear"@,
{
    "linear".to_owned()
}

/// A fault injected into an issuance event.
pub enum Fault {
    /// Validation of the issued node is delayed by this many milliseconds.
    DelayValidation(i64),
    /// A fault the tracker does not model; carried through unchanged.
    Other(String),
}

/// What an event of the issuance stream does.
pub enum ForkEventKind {
    /// A node of the graph is issued.
    EpochIssue { node_id: String },
    /// An attacker replays this many stale messages.
    ReplayAttempt { count: Option<i64> },
    /// The fleet reconciles the fork.
    Merge,
    /// An event kind the tracker ignores; carried through unchanged.
    Other(String),
}

/// One event of the issuance stream.
pub struct ForkEvent {
    pub t: i64,
    pub kind: ForkEventKind,
    pub faults: Vec<Fault>,
}

/// The validation delay the first delay fault injects, or zero.
pub open spec fn spec_fault_delay_ms(faults: Seq<Fault>) -> int
    decreases faults.len(),
{
    if faults.len() == 0 {
        0
    } else {
        match faults[0] {
            Fault::DelayValidation(ms) => ms as int,
            Fault::Other(_) => spec_fault_delay_ms(faults.drop_first()),
        }
    }
}

/// The validation delay the first delay fault injects, or zero.
pub fn fault_delay_ms(faults: &Vec<Fault>) -> (r: i64)
    ensures
        r == spec_fault_delay_ms(faults@),
{
    let n = faults.len();
    proof {
        assert(faults@.skip(0) =~= faults@);
    }
    for i in 0..n
        invariant
            n == faults@.len(),
            spec_fault_delay_ms(faults@.skip(i as int)) == spec_fault_delay_ms(faults@),
            forall|j: int| 0 <= j < i ==> (#[trigger] faults@[j]) is Other,
    {
        proof {
            assert(faults@.skip(i as int)[0] == faults@[i as int]);
            assert(faults@.skip(i as int).drop_first() =~= faults@.skip(i as int + 1));
        }
        match &faults[i] {
            Fault::DelayValidation(ms) => {
                return *ms;
            },
            Fault::Other(_) => {},
        }
    }
    0
}

// ---------------------------------------------------------------------------
// Depth of a node: the cycle-guarded walk up the parent chain.
// ---------------------------------------------------------------------------

/// Whether `list` holds a string reading `s`.
pub open spec fn seq_contains_str(list: Seq<String>, s: String) -> bool {
    exists|i: int| 0 <= i < list.len() && (#[trigger] list[i])@ == s@
}

/// The number of parent hops from `node_id` before the walk reaches a node
/// without a parent, an unknown node, or a node already visited. `fuel`
/// bounds the walk; with fuel beyond the graph size it never runs out.
pub open spec fn spec_depth(
    nodes: Seq<(String, EpochNode)>,
    node_id: String,
    seen: Seq<String>,
    fuel: nat,
) -> int
    decreases fuel,
{
    if fuel == 0 {
        0
    } else {
        let i = find_key(nodes, node_id);
        if i == -1 {
            0
        } else {
            let node = nodes[i].1;
            match node.parent_id {
                None => 0,
                Some(pid) => if seq_contains_str(seen, node.node_id) {
                    0
                } else {
                    1 + spec_depth(nodes, pid, seen.push(node.node_id), (fuel - 1) as nat)
                },
            }
        }
    }
}

/// Depth of a node in the graph: parent hops until the chain ends or
/// repeats.
pub open spec fn depth_of(nodes: Seq<(String, EpochNode)>, node_id: String) -> int {
    spec_depth(nodes, node_id, Seq::empty(), (nodes.len() + 1) as nat)
}

fn contains_string(list: &Vec<String>, s: &String) -> (r: bool)
    ensures
        r == seq_contains_str(list@, *s),
{
    let n = list.len();
    for i in 0..n
        invariant
            n == list@.len(),
            forall|j: int| 0 <= j < i ==> (#[trigger] list@[j])@ != s@,
    {
        if list[i].eq(s) {
            return true;
        }
    }
    false
}

fn lookup_node<'a>(nodes: &'a Vec<(String, EpochNode)>, k: &String) -> (r: Option<usize>)
    ensures
        r matches Some(i) ==> i as int == find_key(nodes@, *k) && i < nodes@.len(),
        r is None ==> find_key(nodes@, *k) == -1,
{
    let n = nodes.len();
    for i in 0..n
        invariant
            n == nodes@.len(),
            forall|j: int| 0 <= j < i ==> (#[trigger] nodes@[j].0)@ != k@,
    {
        if nodes[i].0.eq(k) {
            proof {
                lemma_find_key_at(nodes@, *k, i as int);
            }
            return Some(i);
        }
    }
    proof {
        lemma_find_key_absent(nodes@, *k);
    }
    None
}

/// Depth of `node_id` in the graph: the cycle-guarded walk up the parent
/// chain.
pub fn depth(node_id: &String, nodes: &Vec<(String, EpochNode)>) -> (d: i64)
    requires
        nodes@.len() <= MAX_ENTITIES,
    ensures
        d == depth_of(nodes@, *node_id),
{
    let mut fuel: usize = nodes.len() + 1;
    let mut d: i64 = 0;
    let mut current: String = node_id.clone();
    let mut seen: Vec<String> = Vec::new();
    loop
        invariant
            nodes@.len() <= MAX_ENTITIES,
            0 <= d,
            d + fuel <= nodes@.len() + 1,
            d + spec_depth(nodes@, current, seen@, fuel as nat) == depth_of(nodes@, *node_id),
        decreases fuel,
    {
        if fuel == 0 {
            return d;
        }
        let ni = lookup_node(nodes, &current);
        match ni {
            None => {
                return d;
            },
            Some(i) => {
                let node = &nodes[i].1;
                match &node.parent_id {
                    None => {
                        return d;
                    },
                    Some(pid) => {
                        if contains_string(&seen, &node.node_id) {
                            return d;
                        }
                        seen.push(node.node_id.clone());
                        d = d + 1;
                        current = pid.clone();
                        fuel = fuel - 1;
                    },
                }
            },
        }
    }
}

// ---------------------------------------------------------------------------
// Byte-lexicographic order on hashes.
// ---------------------------------------------------------------------------

/// Strict byte-lexicographic order: `a` sorts before `b`.
pub open spec fn lex_lt(a: Seq<u8>, b: Seq<u8>) -> bool
    decreases a.len(),
{
    if b.len() == 0 {
        false
    } else if a.len() == 0 {
        true
    } else if a[0] < b[0] {
        true
    } else if a[0] > b[0] {
        false
    } else {
        lex_lt(a.drop_first(), b.drop_first())
    }
}

/// Byte-lexicographic order is asymmetric.
pub proof fn lemma_lex_asym(a: Seq<u8>, b: Seq<u8>)
    ensures
        !(lex_lt(a, b) && lex_lt(b, a)),
    decreases a.len(),
{
    if a.len() > 0 && b.len() > 0 && a[0] == b[0] {
        lemma_lex_asym(a.drop_first(), b.drop_first());
    }
}

/// Byte-lexicographic order is total: two sequences compare one way, the
/// other, or are equal.
pub proof fn lemma_lex_total(a: Seq<u8>, b: Seq<u8>)
    ensures
        lex_lt(a, b) || lex_lt(b, a) || a == b,
    decreases a.len(),
{
    if a.len() > 0 && b.len() > 0 && a[0] == b[0] {
        lemma_lex_total(a.drop_first(), b.drop_first());
        if !lex_lt(a, b) && !lex_lt(b, a) {
            assert(a.drop_first() == b.drop_first());
            assert forall|i: int| 0 <= i < a.len() implies a[i] == b[i] by {
                if i > 0 {
                    assert(a[i] == a.drop_first()[i - 1]);
                    assert(b[i] == b.drop_first()[i - 1]);
                }
            }
            assert(a =~= b);
        }
    } else if a.len() == 0 && b.len() == 0 {
        assert(a =~= b);
    }
}

/// Byte-lexicographic order is transitive.
pub proof fn lemma_lex_trans(a: Seq<u8>, b: Seq<u8>, c: Seq<u8>)
    requires
        lex_lt(a, b),
        lex_lt(b, c),
    ensures
        lex_lt(a, c),
    decreases a.len(),
{
    if a.len() > 0 && b.len() > 0 && c.len() > 0 && a[0] == b[0] && b[0] == c[0] {
        lemma_lex_trans(a.drop_first(), b.drop_first(), c.drop_first());
    }
}

/// The UTF-8 bytes of a string; byte order over these equals the order
/// `str` comparison uses.
pub open spec fn str_bytes(s: String) -> Seq<u8> {
    vstd::utf8::encode_utf8(s@)
}

/// Compare two identity strings in byte-lexicographic order.
pub fn str_lex_lt(a: &String, b: &String) -> (r: bool)
    ensures
        r == lex_lt(str_bytes(*a), str_bytes(*b)),
{
    let ab = a.as_str().as_bytes();
    let bb = b.as_str().as_bytes();
    let na = ab.len();
    let nb = bb.len();
    let ghost av = str_bytes(*a);
    let ghost bv = str_bytes(*b);
    proof {
        assert(av.skip(0) =~= av);
        assert(bv.skip(0) =~= bv);
    }
    let mut i: usize = 0;
    loop
        invariant
            av == str_bytes(*a),
            bv == str_bytes(*b),
            na == av.len(),
            nb == bv.len(),
            ab@ == av,
            bb@ == bv,
            i <= na,
            i <= nb,
            forall|j: int| 0 <= j < i ==> av[j] == bv[j],
            lex_lt(av, bv) == lex_lt(av.skip(i as int), bv.skip(i as int)),
        decreases na - i,
    {
        if i == nb {
            proof {
                assert(bv.skip(i as int).len() == 0);
            }
            return false;
        }
        if i == na {
            proof {
                assert(av.skip(i as int).len() == 0 && bv.skip(i as int).len() > 0);
            }
            return true;
        }
        let ca = ab[i];
        let cb = bb[i];
        proof {
            assert(av.skip(i as int)[0] == av[i as int]);
            assert(bv.skip(i as int)[0] == bv[i as int]);
            assert(av.skip(i as int).drop_first() =~= av.skip(i as int + 1));
            assert(bv.skip(i as int).drop_first() =~= bv.skip(i as int + 1));
        }
        if ca < cb {
            return true;
        }
        if ca > cb {
            return false;
        }
        i = i + 1;
    }
}


// ---------------------------------------------------------------------------
// Tracker state and transitions.
// ---------------------------------------------------------------------------

/// A fatal corpus error: the stream issued a node the graph never
/// declared.
#[derive(Debug)]
pub enum ForkError {
    UnknownNode { node_id: String },
}

/// A child recorded under a parent bucket.
#[verifier::ext_equal]
pub ghost struct ChildV {
    pub epoch_id: int,
    pub node_id: String,
    pub eare_hash: String,
}

/// The entries observed at one epoch, with the time of the first issuance
/// recorded there.
#[verifier::ext_equal]
pub ghost struct EpochBucketV {
    pub first_t: int,
    pub entries: Seq<(String, String)>,
}

/// The children recorded under one parent, with the time of the first
/// issuance recorded there.
#[verifier::ext_equal]
pub ghost struct ChildBucketV {
    pub first_t: int,
    pub children: Seq<ChildV>,
}

/// Mathematical value of the fork tracker's state.
#[verifier::ext_equal]
pub ghost struct ForkStateV {
    pub observed: Seq<(i64, EpochBucketV)>,
    pub children: Seq<(Option<String>, ChildBucketV)>,
    pub detection: bool,
    pub detection_time: Option<int>,
    pub fork_created: Option<int>,
    pub errors: Seq<ViolationCode>,
    pub messages_dropped: int,
}

/// First index whose integer key is `k`, or -1.
pub open spec fn find_key_int<V>(m: Seq<(i64, V)>, k: i64) -> int
    decreases m.len(),
{
    if m.len() == 0 {
        -1
    } else if m[0].0 == k {
        0
    } else {
        let rest = find_key_int(m.drop_first(), k);
        if rest == -1 {
            -1
        } else {
            rest + 1
        }
    }
}

pub proof fn lemma_find_key_int<V>(m: Seq<(i64, V)>, k: i64)
    ensures
        -1 <= find_key_int(m, k) < m.len(),
        find_key_int(m, k) == -1 ==> forall|i: int| 0 <= i < m.len() ==> (#[trigger] m[i]).0 != k,
        find_key_int(m, k) >= 0 ==> {
            &&& m[find_key_int(m, k)].0 == k
            &&& forall|i: int| 0 <= i < find_key_int(m, k) ==> (#[trigger] m[i]).0 != k
        },
    decreases m.len(),
{
    if m.len() > 0 && m[0].0 != k {
        lemma_find_key_int(m.drop_first(), k);
        assert forall|i: int| 1 <= i < m.len() implies m.drop_first()[i - 1] == m[i] by {}
    }
}

/// A parent bucket key: the parent id, with a missing parent and an empty
/// parent id sharing one bucket.
pub open spec fn pkey_view(o: Option<String>) -> Seq<char> {
    match o {
        Some(s) => s@,
        None => Seq::empty(),
    }
}

/// First index whose parent-bucket key reads like `k`, or -1.
pub open spec fn find_pkey<V>(m: Seq<(Option<String>, V)>, k: Option<String>) -> int
    decreases m.len(),
{
    if m.len() == 0 {
        -1
    } else if pkey_view(m[0].0) == pkey_view(k) {
        0
    } else {
        let rest = find_pkey(m.drop_first(), k);
        if rest == -1 {
            -1
        } else {
            rest + 1
        }
    }
}

pub proof fn lemma_find_pkey<V>(m: Seq<(Option<String>, V)>, k: Option<String>)
    ensures
        -1 <= find_pkey(m, k) < m.len(),
        find_pkey(m, k) == -1 ==> forall|i: int|
            0 <= i < m.len() ==> pkey_view((#[trigger] m[i]).0) != pkey_view(k),
        find_pkey(m, k) >= 0 ==> {
            &&& pkey_view(m[find_pkey(m, k)].0) == pkey_view(k)
            &&& forall|i: int| 0 <= i < find_pkey(m, k) ==> pkey_view((#[trigger] m[i]).0) != pkey_view(k)
        },
    decreases m.len(),
{
    if m.len() > 0 && pkey_view(m[0].0) != pkey_view(k) {
        lemma_find_pkey(m.drop_first(), k);
        assert forall|i: int| 1 <= i < m.len() implies m.drop_first()[i - 1] == m[i] by {}
    }
}

/// Whether a hash reading `h` was already observed among `entries`.
pub open spec fn entries_contain_hash(entries: Seq<(String, String)>, h: String) -> bool {
    exists|j: int| 0 <= j < entries.len() && (#[trigger] entries[j]).1@ == h@
}

/// Whether a sibling with this epoch and hash is already recorded.
pub open spec fn children_contain(children: Seq<ChildV>, epoch_id: i64, h: String) -> bool {
    exists|j: int|
        0 <= j < children.len() && (#[trigger] children[j]).epoch_id == epoch_id as int && children[j].eare_hash@
            == h@
}

/// Whether the issued node's hash disagrees with a hash already observed
/// at its epoch.
pub open spec fn epoch_conflict(v: ForkStateV, node: EpochNode) -> bool {
    let ei = find_key_int(v.observed, node.epoch_id);
    let entries = if ei == -1 {
        Seq::empty()
    } else {
        v.observed[ei].1.entries
    };
    !entries_contain_hash(entries, node.eare_hash) && entries.len() >= 1
}

/// Whether the issued node disagrees with a sibling already recorded under
/// its parent.
pub open spec fn parent_conflict(v: ForkStateV, node: EpochNode) -> bool {
    let pi = find_pkey(v.children, node.parent_id);
    let pchildren = if pi == -1 {
        Seq::empty()
    } else {
        v.children[pi].1.children
    };
    pchildren.len() >= 1 && !children_contain(pchildren, node.epoch_id, node.eare_hash)
}

/// When a conflict is flagged at issuance time `t`, the fork was created
/// at the earliest issuance among the conflicting siblings: the first
/// issuance recorded in each conflicting bucket, or `t` itself.
pub open spec fn spec_fork_time(v: ForkStateV, node: EpochNode, t: int) -> int {
    let ei = find_key_int(v.observed, node.epoch_id);
    let epoch_first = if ei == -1 {
        t
    } else {
        v.observed[ei].1.first_t
    };
    let pi = find_pkey(v.children, node.parent_id);
    let parent_first = if pi == -1 {
        t
    } else {
        v.children[pi].1.first_t
    };
    let a = if epoch_conflict(v, node) && epoch_first < t {
        epoch_first
    } else {
        t
    };
    if parent_conflict(v, node) && parent_first < a {
        parent_first
    } else {
        a
    }
}

/// An `epoch_issue` event: the issued node's hash is held against every
/// hash already observed at its epoch and against its recorded siblings. A
/// disagreement flags a fork: the fork counts as created at the earliest
/// issuance among the conflicting siblings, and as detected at this
/// issuance — the one that makes it observable — after any injected
/// validation delay. The node's declared previous hash is held against its
/// parent's actual hash. Issuing an undeclared node is a fatal corpus
/// error.
pub open spec fn spec_fork_issue(
    v: ForkStateV,
    t: int,
    node_id: String,
    faults: Seq<Fault>,
    nodes: Seq<(String, EpochNode)>,
) -> Result<ForkStateV, ForkError> {
    let ni = find_key(nodes, node_id);
    if ni == -1 {
        Err(ForkError::UnknownNode { node_id: node_id })
    } else {
        let node = nodes[ni].1;
        let ei = find_key_int(v.observed, node.epoch_id);
        let entries = if ei == -1 {
            Seq::empty()
        } else {
            v.observed[ei].1.entries
        };
        let pi = find_pkey(v.children, node.parent_id);
        let pchildren = if pi == -1 {
            Seq::empty()
        } else {
            v.children[pi].1.children
        };
        let fork_detected = epoch_conflict(v, node) || parent_conflict(v, node);
        let fork_time = spec_fork_time(v, node, t);
        let new_entries = entries.push((node.node_id, node.eare_hash));
        let observed1 = if ei == -1 {
            v.observed.push((node.epoch_id, EpochBucketV { first_t: t, entries: new_entries }))
        } else {
            v.observed.update(
                ei,
                (
                    v.observed[ei].0,
                    EpochBucketV { first_t: v.observed[ei].1.first_t, entries: new_entries },
                ),
            )
        };
        let new_children = pchildren.push(
            ChildV { epoch_id: node.epoch_id as int, node_id: node.node_id, eare_hash: node.eare_hash },
        );
        let children1 = if pi == -1 {
            v.children.push(
                (node.parent_id, ChildBucketV { first_t: t, children: new_children }),
            )
        } else {
            v.children.update(
                pi,
                (
                    v.children[pi].0,
                    ChildBucketV { first_t: v.children[pi].1.first_t, children: new_children },
                ),
            )
        };
        let v1 = ForkStateV { observed: observed1, children: children1, ..v };
        let v2 = if fork_detected {
            let fc = if v1.fork_created is None {
                Some(fork_time)
            } else {
                v1.fork_created
            };
            if v1.detection_time is None {
                ForkStateV {
                    fork_created: fc,
                    detection_time: Some(t + spec_fault_delay_ms(faults)),
                    detection: true,
                    errors: spec_push_err(v1.errors, ViolationCode::EpochForkDetected),
                    ..v1
                }
            } else {
                ForkStateV { fork_created: fc, ..v1 }
            }
        } else {
            v1
        };
        if node.previous_epoch_hash is Some && node.parent_id is Some {
            let pni = find_key(nodes, node.parent_id->0);
            if pni >= 0 && nodes[pni].1.eare_hash@ != node.previous_epoch_hash->0@ {
                Ok(ForkStateV { errors: spec_push_err(v2.errors, ViolationCode::HashChainBreak), ..v2 })
            } else {
                Ok(v2)
            }
        } else {
            Ok(v2)
        }
    }
}

/// One replay step of the fork tracker.
pub open spec fn spec_fork_step(
    v: ForkStateV,
    ev: ForkEvent,
    nodes: Seq<(String, EpochNode)>,
) -> Result<ForkStateV, ForkError> {
    match ev.kind {
        ForkEventKind::EpochIssue { node_id } => spec_fork_issue(
            v,
            ev.t as int,
            node_id,
            ev.faults@,
            nodes,
        ),
        ForkEventKind::ReplayAttempt { count } => Ok(
            ForkStateV {
                messages_dropped: v.messages_dropped + match count {
                    Some(c) => c as int,
                    None => 0,
                },
                ..v
            },
        ),
        ForkEventKind::Merge => Ok(v),
        ForkEventKind::Other(_) => Ok(v),
    }
}

/// Fold of `spec_fork_step` over an event sequence.
pub open spec fn spec_fork_run(
    v: ForkStateV,
    events: Seq<ForkEvent>,
    nodes: Seq<(String, EpochNode)>,
) -> Result<ForkStateV, ForkError>
    decreases events.len(),
{
    if events.len() == 0 {
        Ok(v)
    } else {
        match spec_fork_step(v, events[0], nodes) {
            Ok(v1) => spec_fork_run(v1, events.drop_first(), nodes),
            Err(e) => Err(e),
        }
    }
}

/// The fork fold splits at any point.
pub proof fn lemma_fork_run_decompose(
    v: ForkStateV,
    events: Seq<ForkEvent>,
    nodes: Seq<(String, EpochNode)>,
    k: int,
)
    requires
        0 <= k <= events.len(),
    ensures
        spec_fork_run(v, events, nodes) == match spec_fork_run(v, events.take(k), nodes) {
            Ok(v1) => spec_fork_run(v1, events.skip(k), nodes),
            Err(e) => Err::<ForkStateV, ForkError>(e),
        },
    decreases k,
{
    if k == 0 {
        assert(events.take(0).len() == 0);
        assert(events.skip(0) =~= events);
    } else {
        assert(events.take(k)[0] == events[0]);
        match spec_fork_step(v, events[0], nodes) {
            Ok(v1) => {
                lemma_fork_run_decompose(v1, events.drop_first(), nodes, k - 1);
                assert(events.take(k).drop_first() =~= events.drop_first().take(k - 1));
                assert(events.skip(k) =~= events.drop_first().skip(k - 1));
            },
            Err(e) => {},
        }
    }
}

/// Every value a fork event carries is within the scenario bounds.
pub open spec fn fork_event_bounded(ev: ForkEvent) -> bool {
    &&& -VAL_BOUND <= ev.t <= VAL_BOUND
    &&& spec_fault_delay_ms(ev.faults@) <= VAL_BOUND
    &&& -VAL_BOUND <= spec_fault_delay_ms(ev.faults@)
    &&& match ev.kind {
        ForkEventKind::ReplayAttempt { count } => match count {
            Some(c) => -VAL_BOUND <= c <= VAL_BOUND,
            None => true,
        },
        _ => true,
    }
}

/// Fork tracker state within bounds after `steps` events.
pub open spec fn fork_state_bounded(v: ForkStateV, steps: int) -> bool {
    &&& -VAL_BOUND * steps <= v.messages_dropped <= VAL_BOUND * steps
    &&& match v.detection_time {
        Some(t) => -2 * VAL_BOUND <= t <= 2 * VAL_BOUND,
        None => true,
    }
    &&& match v.fork_created {
        Some(t) => -VAL_BOUND <= t <= VAL_BOUND,
        None => true,
    }
    &&& forall|i: int|
        0 <= i < v.observed.len() ==> -VAL_BOUND <= (#[trigger] v.observed[i]).1.first_t
            <= VAL_BOUND
    &&& forall|i: int|
        0 <= i < v.children.len() ==> -VAL_BOUND <= (#[trigger] v.children[i]).1.first_t
            <= VAL_BOUND
}

/// A fold of bounded events keeps the state bounded.
pub proof fn lemma_fork_run_bounded(
    v: ForkStateV,
    events: Seq<ForkEvent>,
    nodes: Seq<(String, EpochNode)>,
    steps0: int,
)
    requires
        fork_state_bounded(v, steps0),
        0 <= steps0,
        forall|i: int| 0 <= i < events.len() ==> fork_event_bounded(#[trigger] events[i]),
    ensures
        spec_fork_run(v, events, nodes) matches Ok(w) ==> fork_state_bounded(
            w,
            steps0 + events.len(),
        ),
    decreases events.len(),
{
    if events.len() > 0 {
        crate::desync::lemma_scale_mono(VAL_BOUND as int, steps0, steps0 + 1);
        crate::desync::lemma_scale_mono(VAL_BOUND as int, steps0 + 1, steps0 + events.len());
        match spec_fork_step(v, events[0], nodes) {
            Ok(v1) => {
                assert(fork_event_bounded(events[0]));
                match events[0].kind {
                    ForkEventKind::EpochIssue { node_id } => {
                        let ni = find_key(nodes, node_id);
                        if ni == -1 {
                            assert(false);
                        }
                        let node = nodes[ni].1;
                        lemma_find_key_int(v.observed, node.epoch_id);
                        lemma_find_pkey(v.children, node.parent_id);
                        assert forall|i: int|
                            0 <= i < v1.observed.len() implies -VAL_BOUND <= (
                        #[trigger] v1.observed[i]).1.first_t <= VAL_BOUND by {
                            if i < v.observed.len() {
                                assert(-VAL_BOUND <= v.observed[i].1.first_t <= VAL_BOUND);
                            }
                        }
                        assert forall|i: int|
                            0 <= i < v1.children.len() implies -VAL_BOUND <= (
                        #[trigger] v1.children[i]).1.first_t <= VAL_BOUND by {
                            if i < v.children.len() {
                                assert(-VAL_BOUND <= v.children[i].1.first_t <= VAL_BOUND);
                            }
                        }
                    },
                    _ => {},
                }
                assert(fork_state_bounded(v1, steps0 + 1));
                assert forall|i: int|
                    0 <= i < events.drop_first().len() implies fork_event_bounded(
                    #[trigger] events.drop_first()[i]) by {
                    assert(events.drop_first()[i] == events[i + 1]);
                }
                lemma_fork_run_bounded(v1, events.drop_first(), nodes, steps0 + 1);
            },
            Err(e) => {},
        }
    }
}

// ---------------------------------------------------------------------------
// Winning-branch selection.
// ---------------------------------------------------------------------------

/// All observed (node, hash) entries, epochs in first-seen order.
pub open spec fn flatten_observed(observed: Seq<(i64, EpochBucketV)>) -> Seq<(String, String)>
    decreases observed.len(),
{
    if observed.len() == 0 {
        Seq::empty()
    } else {
        observed[0].1.entries + flatten_observed(observed.drop_first())
    }
}

/// The ranking key of a candidate entry: depth, epoch and timestamp of its
/// node (zero for an entry naming no declared node), and its hash bytes.
pub open spec fn rank_depth(nodes: Seq<(String, EpochNode)>, e: (String, String)) -> int {
    depth_of(nodes, e.0)
}

pub open spec fn rank_epoch(nodes: Seq<(String, EpochNode)>, e: (String, String)) -> int {
    let i = find_key(nodes, e.0);
    if i == -1 {
        0
    } else {
        nodes[i].1.epoch_id as int
    }
}

pub open spec fn rank_ts(nodes: Seq<(String, EpochNode)>, e: (String, String)) -> int {
    let i = find_key(nodes, e.0);
    if i == -1 {
        0
    } else {
        nodes[i].1.timestamp_ms as int
    }
}

/// The deterministic tie-break: `a` outranks `b` when it is deeper, then
/// of a higher epoch, then issued earlier, then of a byte-lexicographically
/// larger hash.
pub open spec fn spec_better(
    nodes: Seq<(String, EpochNode)>,
    a: (String, String),
    b: (String, String),
) -> bool {
    if rank_depth(nodes, a) != rank_depth(nodes, b) {
        rank_depth(nodes, a) > rank_depth(nodes, b)
    } else if rank_epoch(nodes, a) != rank_epoch(nodes, b) {
        rank_epoch(nodes, a) > rank_epoch(nodes, b)
    } else if rank_ts(nodes, a) != rank_ts(nodes, b) {
        rank_ts(nodes, a) < rank_ts(nodes, b)
    } else {
        lex_lt(str_bytes(b.1), str_bytes(a.1))
    }
}

/// Outranking is transitive.
pub proof fn lemma_better_trans(
    nodes: Seq<(String, EpochNode)>,
    a: (String, String),
    b: (String, String),
    c: (String, String),
)
    requires
        spec_better(nodes, a, b),
        spec_better(nodes, b, c),
    ensures
        spec_better(nodes, a, c),
{
    if rank_depth(nodes, a) == rank_depth(nodes, c) && rank_epoch(nodes, a) == rank_epoch(nodes, c)
        && rank_ts(nodes, a) == rank_ts(nodes, c) {
        lemma_lex_trans(str_bytes(c.1), str_bytes(b.1), str_bytes(a.1));
    }
}

/// The winning candidate: the scan keeps the earlier entry unless a later
/// one strictly outranks it.
pub open spec fn spec_winner(
    nodes: Seq<(String, EpochNode)>,
    entries: Seq<(String, String)>,
) -> Option<(String, String)>
    decreases entries.len(),
{
    if entries.len() == 0 {
        None
    } else {
        match spec_winner(nodes, entries.drop_last()) {
            None => Some(entries.last()),
            Some(b) => if spec_better(nodes, entries.last(), b) {
                Some(entries.last())
            } else {
                Some(b)
            },
        }
    }
}

/// The winner is one of the candidates, and no candidate outranks it.
pub proof fn lemma_winner_minimal(nodes: Seq<(String, EpochNode)>, entries: Seq<(String, String)>)
    requires
        entries.len() > 0,
    ensures
        spec_winner(nodes, entries) is Some,
        entries.contains(spec_winner(nodes, entries)->0),
        forall|j: int|
            0 <= j < entries.len() ==> !spec_better(
                nodes,
                #[trigger] entries[j],
                spec_winner(nodes, entries)->0,
            ),
    decreases entries.len(),
{
    let w = spec_winner(nodes, entries)->0;
    let last = entries.last();
    assert(entries[entries.len() - 1] == last);
    lemma_lex_asym(str_bytes(last.1), str_bytes(last.1));
    assert(!spec_better(nodes, last, last));
    if entries.len() == 1 {
        assert(w == last);
        assert(entries.contains(w));
    } else {
        lemma_winner_minimal(nodes, entries.drop_last());
        let b = spec_winner(nodes, entries.drop_last())->0;
        let bi = choose|i: int| 0 <= i < entries.drop_last().len() && entries.drop_last()[i] == b;
        assert(entries.drop_last()[bi] == entries[bi]);
        if spec_better(nodes, last, b) {
            assert(w == last);
            assert(entries.contains(w));
        } else {
            assert(w == b);
            assert(entries[bi] == w);
            assert(entries.contains(w));
        }
        assert forall|j: int| 0 <= j < entries.len() implies !spec_better(
            nodes,
            #[trigger] entries[j],
            w,
        ) by {
            if j < entries.len() - 1 {
                assert(entries.drop_last()[j] == entries[j]);
                assert(!spec_better(nodes, entries[j], b));
                if spec_better(nodes, last, b) {
                    if spec_better(nodes, entries[j], w) {
                        lemma_better_trans(nodes, entries[j], last, b);
                    }
                }
            } else {
                assert(entries[j] == last);
                if spec_better(nodes, last, b) {
                    assert(w == last);
                } else {
                    assert(w == b);
                }
            }
        }
    }
}


// ---------------------------------------------------------------------------
// The executable tracker.
// ---------------------------------------------------------------------------

/// A child recorded under a parent bucket.
pub struct Child {
    pub epoch_id: i64,
    pub node_id: String,
    pub eare_hash: String,
}

impl View for Child {
    type V = ChildV;

    open spec fn view(&self) -> ChildV {
        ChildV {
            epoch_id: self.epoch_id as int,
            node_id: self.node_id,
            eare_hash: self.eare_hash,
        }
    }
}

/// The entries observed at one epoch, with the time of the first issuance
/// recorded there.
pub struct EpochBucket {
    pub first_t: i64,
    pub entries: Vec<(String, String)>,
}

/// The children recorded under one parent, with the time of the first
/// issuance recorded there.
pub struct ChildBucket {
    pub first_t: i64,
    pub children: Vec<Child>,
}

/// The live state the fork tracker owns during one scenario's replay.
pub struct ForkTracker {
    pub observed: Vec<(i64, EpochBucket)>,
    pub children: Vec<(Option<String>, ChildBucket)>,
    pub detection: bool,
    pub detection_time: Option<i64>,
    pub fork_created: Option<i64>,
    pub errors: Vec<ViolationCode>,
    pub messages_dropped: i64,
}

/// The observed table as mathematical values.
pub open spec fn view_observed(observed: Vec<(i64, EpochBucket)>) -> Seq<(i64, EpochBucketV)> {
    observed@.map_values(
        |p: (i64, EpochBucket)|
            (p.0, EpochBucketV { first_t: p.1.first_t as int, entries: p.1.entries@ }),
    )
}

/// The children table as mathematical values.
pub open spec fn view_children(children: Vec<(Option<String>, ChildBucket)>) -> Seq<
    (Option<String>, ChildBucketV),
> {
    children@.map_values(
        |p: (Option<String>, ChildBucket)|
            (
                p.0,
                ChildBucketV {
                    first_t: p.1.first_t as int,
                    children: p.1.children@.map_values(|c: Child| c@),
                },
            ),
    )
}

impl View for ForkTracker {
    type V = ForkStateV;

    open spec fn view(&self) -> ForkStateV {
        ForkStateV {
            observed: view_observed(self.observed),
            children: view_children(self.children),
            detection: self.detection,
            detection_time: opt_int(self.detection_time),
            fork_created: opt_int(self.fork_created),
            errors: self.errors@,
            messages_dropped: self.messages_dropped as int,
        }
    }
}

fn lookup_epoch<'a, V>(m: &'a Vec<(i64, V)>, k: i64) -> (r: Option<usize>)
    ensures
        r matches Some(i) ==> i < m@.len() && m@[i as int].0 == k && forall|j: int|
            0 <= j < i ==> (#[trigger] m@[j]).0 != k,
        r is None ==> forall|j: int| 0 <= j < m@.len() ==> (#[trigger] m@[j]).0 != k,
{
    let n = m.len();
    for i in 0..n
        invariant
            n == m@.len(),
            forall|j: int| 0 <= j < i ==> (#[trigger] m@[j]).0 != k,
    {
        if m[i].0 == k {
            return Some(i);
        }
    }
    None
}

fn pkey_eq(a: &Option<String>, b: &Option<String>) -> (r: bool)
    ensures
        r == (pkey_view(*a) == pkey_view(*b)),
{
    proof {
        match a {
            Some(x) => {
                if x@.len() == 0 {
                    assert(x@ =~= Seq::<char>::empty());
                }
            },
            None => {},
        }
        match b {
            Some(y) => {
                if y@.len() == 0 {
                    assert(y@ =~= Seq::<char>::empty());
                }
            },
            None => {},
        }
    }
    match (a, b) {
        (Some(x), Some(y)) => x.eq(y),
        (Some(x), None) => x.as_str().is_empty(),
        (None, Some(y)) => y.as_str().is_empty(),
        (None, None) => true,
    }
}

fn lookup_parent<'a>(m: &'a Vec<(Option<String>, ChildBucket)>, k: &Option<String>) -> (r: Option<
    usize,
>)
    ensures
        r matches Some(i) ==> i < m@.len() && pkey_view(m@[i as int].0) == pkey_view(*k)
            && forall|j: int| 0 <= j < i ==> pkey_view((#[trigger] m@[j]).0) != pkey_view(*k),
        r is None ==> forall|j: int|
            0 <= j < m@.len() ==> pkey_view((#[trigger] m@[j]).0) != pkey_view(*k),
{
    let n = m.len();
    for i in 0..n
        invariant
            n == m@.len(),
            forall|j: int| 0 <= j < i ==> pkey_view((#[trigger] m@[j]).0) != pkey_view(*k),
    {
        if pkey_eq(&m[i].0, k) {
            return Some(i);
        }
    }
    None
}

fn has_hash(entries: &Vec<(String, String)>, h: &String) -> (r: bool)
    ensures
        r == entries_contain_hash(entries@, *h),
{
    let n = entries.len();
    for i in 0..n
        invariant
            n == entries@.len(),
            forall|j: int| 0 <= j < i ==> (#[trigger] entries@[j]).1@ != h@,
    {
        if entries[i].1.eq(h) {
            return true;
        }
    }
    false
}

fn has_child(children: &Vec<Child>, epoch_id: i64, h: &String) -> (r: bool)
    ensures
        r == children_contain(children@.map_values(|c: Child| c@), epoch_id, *h),
{
    let ghost cv = children@.map_values(|c: Child| c@);
    let n = children.len();
    for i in 0..n
        invariant
            cv == children@.map_values(|c: Child| c@),
            n == cv.len() == children@.len(),
            forall|j: int| 0 <= j < n ==> cv[j] == children@[j]@,
            forall|j: int|
                0 <= j < i ==> !((#[trigger] cv[j]).epoch_id == epoch_id as int && cv[j].eare_hash@
                    == h@),
    {
        if children[i].epoch_id == epoch_id && children[i].eare_hash.eq(h) {
            proof {
                assert(cv[i as int].epoch_id == epoch_id as int && cv[i as int].eare_hash@ == h@);
            }
            return true;
        }
    }
    false
}

impl ForkTracker {
    /// One replay step; see `spec_fork_step`.
    pub fn apply(&mut self, ev: &ForkEvent, nodes: &Vec<(String, EpochNode)>) -> (r: Result<
        (),
        ForkError,
    >)
        requires
            fork_event_bounded(*ev),
            -VAL_BOUND * (MAX_EVENTS as int) <= old(self)@.messages_dropped <= VAL_BOUND * (
            MAX_EVENTS as int),
        ensures
            r matches Ok(u) ==> spec_fork_step(old(self)@, *ev, nodes@) == Ok::<
                ForkStateV,
                ForkError,
            >(final(self)@),
            r matches Err(e) ==> spec_fork_step(old(self)@, *ev, nodes@) == Err::<
                ForkStateV,
                ForkError,
            >(e) && *final(self) == *old(self),
    {
        let ghost v0 = self@;
        match &ev.kind {
            ForkEventKind::EpochIssue { node_id } => {
                let ni = match lookup_node(nodes, node_id) {
                    None => {
                        return Err(ForkError::UnknownNode { node_id: node_id.clone() });
                    },
                    Some(i) => i,
                };
                let epoch = nodes[ni].1.epoch_id;
                let ei_opt = lookup_epoch(&self.observed, epoch);
                proof {
                    match ei_opt {
                        Some(ei) => {
                            assert(v0.observed[ei as int].0 == self.observed@[ei as int].0);
                            assert forall|j: int| 0 <= j < ei implies (
                            #[trigger] v0.observed[j]).0 != epoch by {
                                assert(v0.observed[j].0 == self.observed@[j].0);
                            }
                            lemma_find_key_int(v0.observed, epoch);
                            if find_key_int(v0.observed, epoch) != ei as int {
                                assert(v0.observed[find_key_int(v0.observed, epoch)].0 == epoch);
                            }
                        },
                        None => {
                            assert forall|j: int|
                                0 <= j < v0.observed.len() implies (#[trigger] v0.observed[j]).0
                                != epoch by {
                                assert(v0.observed[j].0 == self.observed@[j].0);
                            }
                            lemma_find_key_int(v0.observed, epoch);
                            if find_key_int(v0.observed, epoch) >= 0 {
                                assert(v0.observed[find_key_int(v0.observed, epoch)].0 == epoch);
                            }
                        },
                    }
                }
                let already = match ei_opt {
                    Some(e) => has_hash(&self.observed[e].1.entries, &nodes[ni].1.eare_hash),
                    None => false,
                };
                let entries_len = match ei_opt {
                    Some(e) => self.observed[e].1.entries.len(),
                    None => 0,
                };
                let epoch_first = match ei_opt {
                    Some(e) => self.observed[e].1.first_t,
                    None => ev.t,
                };
                let pi_opt = lookup_parent(&self.children, &nodes[ni].1.parent_id);
                proof {
                    let pk = nodes@[ni as int].1.parent_id;
                    match pi_opt {
                        Some(pi) => {
                            assert(v0.children[pi as int].0 == self.children@[pi as int].0);
                            assert forall|j: int| 0 <= j < pi implies pkey_view((
                            #[trigger] v0.children[j]).0) != pkey_view(pk) by {
                                assert(v0.children[j].0 == self.children@[j].0);
                            }
                            lemma_find_pkey(v0.children, pk);
                            if find_pkey(v0.children, pk) != pi as int {
                                assert(pkey_view(v0.children[find_pkey(v0.children, pk)].0)
                                    == pkey_view(pk));
                            }
                        },
                        None => {
                            assert forall|j: int|
                                0 <= j < v0.children.len() implies pkey_view((
                            #[trigger] v0.children[j]).0) != pkey_view(pk) by {
                                assert(v0.children[j].0 == self.children@[j].0);
                            }
                            lemma_find_pkey(v0.children, pk);
                            if find_pkey(v0.children, pk) >= 0 {
                                assert(pkey_view(v0.children[find_pkey(v0.children, pk)].0)
                                    == pkey_view(pk));
                            }
                        },
                    }
                }
                let sibling_match = match pi_opt {
                    Some(p) => has_child(&self.children[p].1.children, epoch, &nodes[ni].1.eare_hash),
                    None => false,
                };
                let pch_len = match pi_opt {
                    Some(p) => self.children[p].1.children.len(),
                    None => 0,
                };
                let parent_first = match pi_opt {
                    Some(p) => self.children[p].1.first_t,
                    None => ev.t,
                };
                let conflict_epoch = !already && entries_len >= 1;
                let conflict_parent = pch_len >= 1 && !sibling_match;
                let fork_detected = conflict_epoch || conflict_parent;
                let a = if conflict_epoch && epoch_first < ev.t {
                    epoch_first
                } else {
                    ev.t
                };
                let fork_time = if conflict_parent && parent_first < a {
                    parent_first
                } else {
                    a
                };
                match ei_opt {
                    Some(e) => {
                        self.observed[e].1.entries.push(
                            (nodes[ni].1.node_id.clone(), nodes[ni].1.eare_hash.clone()),
                        );
                    },
                    None => {
                        let mut fresh: Vec<(String, String)> = Vec::new();
                        fresh.push((nodes[ni].1.node_id.clone(), nodes[ni].1.eare_hash.clone()));
                        self.observed.push((epoch, EpochBucket { first_t: ev.t, entries: fresh }));
                    },
                }
                let child = Child {
                    epoch_id: epoch,
                    node_id: nodes[ni].1.node_id.clone(),
                    eare_hash: nodes[ni].1.eare_hash.clone(),
                };
                match pi_opt {
                    Some(p) => {
                        self.children[p].1.children.push(child);
                    },
                    None => {
                        let mut fresh: Vec<Child> = Vec::new();
                        fresh.push(child);
                        self.children.push(
                            (
                                crate::desync::clone_opt_string(&nodes[ni].1.parent_id),
                                ChildBucket { first_t: ev.t, children: fresh },
                            ),
                        );
                    },
                }
                if fork_detected {
                    if self.fork_created.is_none() {
                        self.fork_created = Some(fork_time);
                    }
                    if self.detection_time.is_none() {
                        let delay = fault_delay_ms(&ev.faults);
                        self.detection_time = Some(ev.t + delay);
                        self.detection = true;
                        push_err(&mut self.errors, ViolationCode::EpochForkDetected);
                    }
                }
                if let (Some(prev), Some(parent_id)) = (
                    &nodes[ni].1.previous_epoch_hash,
                    &nodes[ni].1.parent_id,
                ) {
                    if let Some(pni) = lookup_node(nodes, parent_id) {
                        if !nodes[pni].1.eare_hash.eq(prev) {
                            push_err(&mut self.errors, ViolationCode::HashChainBreak);
                        }
                    }
                }
                proof {
                    let sv = spec_fork_issue(v0, ev.t as int, *node_id, ev.faults@, nodes@);
                    assert(sv is Ok);
                    assert(self@ =~~= sv->Ok_0);
                }
                Ok(())
            },
            ForkEventKind::ReplayAttempt { count } => {
                if let Some(c) = count {
                    self.messages_dropped = self.messages_dropped + *c;
                }
                proof {
                    assert(self@ =~~= (spec_fork_step(v0, *ev, nodes@))->Ok_0);
                }
                Ok(())
            },
            ForkEventKind::Merge => {
                proof {
                    assert(self@ =~~= v0);
                }
                Ok(())
            },
            ForkEventKind::Other(_) => {
                proof {
                    assert(self@ =~~= v0);
                }
                Ok(())
            },
        }
    }
}


// ---------------------------------------------------------------------------
// Scenario, envelope, evaluation.
// ---------------------------------------------------------------------------

/// Where detection latency is measured from.
#[derive(Clone, Copy, Debug, PartialEq, Eq, Structural)]
pub enum DetectionReference {
    /// Measured from the moment the fork was created.
    ForkCreated,
    /// Measured from the first observable symptom.
    ForkObservable,
}

/// The detection reference a scenario carries when the corpus declares
/// none.
pub fn default_detection_reference() -> (r: DetectionReference)
    ensures
        r is ForkCreated,
{
    DetectionReference::ForkCreated
}

/// The reconciled epoch the scenario expects to win.
pub struct ReconciledEpoch {
    pub epoch_id: Option<i64>,
    pub node_id: Option<String>,
    pub eare_hash: Option<String>,
}

/// How many replayed messages and how much time a replay gap may cost.
pub struct AllowReplayGap {
    pub max_messages: i64,
    pub max_ms: i64,
}

/// The scenario's declared outcome contract.
pub struct ForkExpectations {
    pub detected: bool,
    pub detection_reference: DetectionReference,
    pub max_detection_ms: i64,
    pub max_reconciliation_ms: i64,
    pub reconciled_epoch: ReconciledEpoch,
    pub allow_replay_gap: AllowReplayGap,
    pub expected_error_categories: Vec<ViolationCode>,
    pub healing_required: bool,
}

/// Group metadata, informational only.
pub struct GroupContext {
    pub group_id: Option<String>,
}

/// The declared epoch graph.
pub struct Graph {
    pub nodes: Vec<EpochNode>,
    pub edges: Vec<EpochEdge>,
}

/// One epoch-fork scenario.
pub struct ForkScenario {
    pub scenario_id: String,
    pub group_context: Option<GroupContext>,
    pub graph: Graph,
    pub event_stream: Vec<ForkEvent>,
    pub expectations: ForkExpectations,
}

/// One named reason a fork scenario failed its expectations.
#[derive(Clone, Copy, Debug, PartialEq, Eq, Structural)]
pub enum ForkFailure {
    DetectionMismatch,
    MissingDetectionMs,
    DetectionSla,
    WinningHashMismatch,
    WinningEpochMismatch,
    MissingReconciliation,
    ReconciliationSla,
    ReplayGapMessages,
    MissingErrorCategories,
}

impl ForkFailure {
    /// The wire name of the reason, as it appears in result files.
    pub fn as_str(&self) -> (r: &'static str)
        ensures
            r@ == self.name(),
    {
        proof {
            reveal_strlit("detection_mismatch");
            reveal_strlit("missing_detection_ms");
            reveal_strlit("detection_sla");
            reveal_strlit("winning_hash_mismatch");
            reveal_strlit("winning_epoch_mismatch");
            reveal_strlit("missing_reconciliation");
            reveal_strlit("reconciliation_sla");
            reveal_strlit("replay_gap_messages");
            reveal_strlit("missing_error_categories");
        }
        match self {
            ForkFailure::DetectionMismatch => "detection_mismatch",
            ForkFailure::MissingDetectionMs => "missing_detection_ms",
            ForkFailure::DetectionSla => "detection_sla",
            ForkFailure::WinningHashMismatch => "winning_hash_mismatch",
            ForkFailure::WinningEpochMismatch => "winning_epoch_mismatch",
            ForkFailure::MissingReconciliation => "missing_reconciliation",
            ForkFailure::ReconciliationSla => "reconciliation_sla",
            ForkFailure::ReplayGapMessages => "replay_gap_messages",
            ForkFailure::MissingErrorCategories => "missing_error_categories",
        }
    }

    /// The wire name as a mathematical character sequence.
    pub open spec fn name(self) -> Seq<char> {
        match self {
            ForkFailure::DetectionMismatch => "detection_mismatch"@,
            ForkFailure::MissingDetectionMs => "missing_detection_ms"@,
            ForkFailure::DetectionSla => "detection_sla"@,
            ForkFailure::WinningHashMismatch => "winning_hash_mismatch"@,
            ForkFailure::WinningEpochMismatch => "winning_epoch_mismatch"@,
            ForkFailure::MissingReconciliation => "missing_reconciliation"@,
            ForkFailure::ReconciliationSla => "reconciliation_sla"@,
            ForkFailure::ReplayGapMessages => "replay_gap_messages"@,
            ForkFailure::MissingErrorCategories => "missing_error_categories"@,
        }
    }
}

/// One scenario's reported outcome.
pub struct Envelope {
    pub scenario_id: String,
    pub language: String,
    pub status: Status,
    pub detection: bool,
    pub detection_ms: Option<i64>,
    pub reconciliation_ms: Option<i64>,
    pub winning_epoch_id: Option<i64>,
    pub winning_hash: Option<String>,
    pub winning_node_id: Option<String>,
    pub messages_dropped: i64,
    pub healing_actions: Vec<String>,
    pub errors: Vec<ViolationCode>,
    pub false_positive_warnings: i64,
    pub false_positive_hard_errors: i64,
    pub notes: Vec<String>,
    pub failures: Vec<ForkFailure>,
}

/// Mathematical value of an envelope.
#[verifier::ext_equal]
pub ghost struct EnvelopeV {
    pub scenario_id: String,
    pub language: Seq<char>,
    pub status: Status,
    pub detection: bool,
    pub detection_ms: Option<int>,
    pub reconciliation_ms: Option<int>,
    pub winning_epoch_id: Option<int>,
    pub winning_hash: Option<String>,
    pub winning_node_id: Option<String>,
    pub messages_dropped: int,
    pub healing_actions: Seq<String>,
    pub errors: Seq<ViolationCode>,
    pub false_positive_warnings: int,
    pub false_positive_hard_errors: int,
    pub notes: Seq<String>,
    pub failures: Seq<ForkFailure>,
}

impl View for Envelope {
    type V = EnvelopeV;

    open spec fn view(&self) -> EnvelopeV {
        EnvelopeV {
            scenario_id: self.scenario_id,
            language: self.language@,
            status: self.status,
            detection: self.detection,
            detection_ms: opt_int(self.detection_ms),
            reconciliation_ms: opt_int(self.reconciliation_ms),
            winning_epoch_id: opt_int(self.winning_epoch_id),
            winning_hash: self.winning_hash,
            winning_node_id: self.winning_node_id,
            messages_dropped: self.messages_dropped as int,
            healing_actions: self.healing_actions@,
            errors: self.errors@,
            false_positive_warnings: self.false_positive_warnings as int,
            false_positive_hard_errors: self.false_positive_hard_errors as int,
            notes: self.notes@,
            failures: self.failures@,
        }
    }
}

/// The declared graph as a node table: later declarations of the same node
/// id override earlier ones.
pub open spec fn init_nodes(ns: Seq<EpochNode>) -> Seq<(String, EpochNode)>
    decreases ns.len(),
{
    if ns.len() == 0 {
        Seq::empty()
    } else {
        let m = init_nodes(ns.drop_last());
        let n = ns.last();
        let i = find_key(m, n.node_id);
        if i == -1 {
            m.push((n.node_id, n))
        } else {
            m.update(i, (m[i].0, n))
        }
    }
}

/// The node table is no larger than its declaration list.
pub proof fn lemma_init_nodes_len(ns: Seq<EpochNode>)
    ensures
        init_nodes(ns).len() <= ns.len(),
    decreases ns.len(),
{
    if ns.len() > 0 {
        lemma_init_nodes_len(ns.drop_last());
        lemma_find_key(init_nodes(ns.drop_last()), ns.last().node_id);
    }
}

/// The logical times of the event stream, in declaration order.
pub open spec fn fork_times(s: ForkScenario) -> Seq<i64> {
    s.event_stream@.map_values(|e: ForkEvent| e.t)
}

/// The event stream in replay order.
pub open spec fn fork_ordered_events(s: ForkScenario, order: Seq<usize>) -> Seq<ForkEvent> {
    Seq::new(order.len(), |i: int| s.event_stream@[order[i] as int])
}

/// The time of the first `merge` event, if any.
pub open spec fn first_merge_t(events: Seq<ForkEvent>) -> Option<int>
    decreases events.len(),
{
    if events.len() == 0 {
        None
    } else if events[0].kind is Merge {
        Some(events[0].t as int)
    } else {
        first_merge_t(events.drop_first())
    }
}

/// Every value the scenario carries is within the engine's bounds; these
/// are machine limits, not restrictions of the scenario language.
pub open spec fn fork_scenario_bounded(s: ForkScenario) -> bool {
    &&& s.event_stream@.len() <= MAX_EVENTS
    &&& s.graph.nodes@.len() <= MAX_ENTITIES
    &&& forall|i: int| 0 <= i < s.event_stream@.len() ==> fork_event_bounded(#[trigger] s.event_stream@[i])
}

/// Close a fork replay: pick the winning branch, resolve the declared
/// detection reference, and derive the latencies (clamped non-negative).
pub open spec fn spec_fork_finish(
    s: ForkScenario,
    v: ForkStateV,
    events: Seq<ForkEvent>,
    nodes: Seq<(String, EpochNode)>,
) -> EnvelopeV {
    let entries = flatten_observed(v.observed);
    let winner = spec_winner(nodes, entries);
    let winning_node_id = match winner {
        Some(w) => Some(w.0),
        None => None,
    };
    let winning_hash = match winner {
        Some(w) => Some(w.1),
        None => None,
    };
    let winning_epoch_id = match winner {
        Some(w) => {
            let i = find_key(nodes, w.0);
            if i == -1 {
                None
            } else {
                Some(nodes[i].1.epoch_id as int)
            }
        },
        None => None,
    };
    let detection_reference = if s.expectations.detection_reference is ForkObservable {
        v.detection_time
    } else {
        if v.fork_created is Some {
            v.fork_created
        } else {
            v.detection_time
        }
    };
    let detection_ms = if v.detection_time is Some && detection_reference is Some {
        let d = v.detection_time->0 - detection_reference->0;
        Some(
            if d > 0 {
                d
            } else {
                0
            },
        )
    } else {
        None
    };
    let reconciliation_ms = if v.detection_time is Some && first_merge_t(events) is Some {
        let d = first_merge_t(events)->0 - v.detection_time->0;
        Some(
            if d > 0 {
                d
            } else {
                0
            },
        )
    } else {
        None
    };
    EnvelopeV {
        scenario_id: s.scenario_id,
        language: "rust"@,
        status: Status::Pass,
        detection: v.detection,
        detection_ms: detection_ms,
        reconciliation_ms: reconciliation_ms,
        winning_epoch_id: winning_epoch_id,
        winning_hash: winning_hash,
        winning_node_id: winning_node_id,
        messages_dropped: v.messages_dropped,
        healing_actions: Seq::empty(),
        errors: v.errors,
        false_positive_warnings: 0,
        false_positive_hard_errors: 0,
        notes: Seq::empty(),
        failures: Seq::empty(),
    }
}

/// The fork tracker before any event is replayed.
pub open spec fn init_fork_state() -> ForkStateV {
    ForkStateV {
        observed: Seq::empty(),
        children: Seq::empty(),
        detection: false,
        detection_time: None,
        fork_created: None,
        errors: Seq::empty(),
        messages_dropped: 0,
    }
}

/// A whole fork replay under the replay order `order`.
pub open spec fn spec_fork_simulate(s: ForkScenario, order: Seq<usize>) -> Result<
    EnvelopeV,
    ForkError,
> {
    let nodes = init_nodes(s.graph.nodes@);
    let events = fork_ordered_events(s, order);
    match spec_fork_run(init_fork_state(), events, nodes) {
        Ok(v) => Ok(spec_fork_finish(s, v, events, nodes)),
        Err(e) => Err(e),
    }
}

/// The mathematical value of a fork replay's outcome.
pub open spec fn fork_result_view(r: Result<Envelope, ForkError>) -> Result<EnvelopeV, ForkError> {
    match r {
        Ok(env) => Ok(env@),
        Err(e) => Err(e),
    }
}


/// Flattening distributes over appending one epoch bucket.
pub proof fn lemma_flatten_snoc(observed: Seq<(i64, EpochBucketV)>)
    requires
        observed.len() > 0,
    ensures
        flatten_observed(observed) == flatten_observed(observed.drop_last())
            + observed.last().1.entries,
    decreases observed.len(),
{
    if observed.len() == 1 {
        assert(flatten_observed(observed.drop_first()).len() == 0);
        assert(flatten_observed(observed.drop_last()).len() == 0);
        assert(flatten_observed(observed) =~= flatten_observed(observed.drop_last())
            + observed.last().1.entries);
    } else {
        lemma_flatten_snoc(observed.drop_first());
        assert(observed.drop_first().drop_last() =~= observed.drop_last().drop_first());
        assert(observed.drop_first().last() == observed.last());
        assert(flatten_observed(observed) =~= flatten_observed(observed.drop_last())
            + observed.last().1.entries);
    }
}

/// The deterministic tie-break, executably.
fn better(nodes: &Vec<(String, EpochNode)>, a: &(String, String), b: &(String, String)) -> (r:
    bool)
    requires
        nodes@.len() <= MAX_ENTITIES,
    ensures
        r == spec_better(nodes@, *a, *b),
{
    let da = depth(&a.0, nodes);
    let db = depth(&b.0, nodes);
    if da != db {
        return da > db;
    }
    let ia = lookup_node(nodes, &a.0);
    let ib = lookup_node(nodes, &b.0);
    let ea = match ia {
        Some(i) => nodes[i].1.epoch_id,
        None => 0,
    };
    let eb = match ib {
        Some(i) => nodes[i].1.epoch_id,
        None => 0,
    };
    if ea != eb {
        return ea > eb;
    }
    let ta = match ia {
        Some(i) => nodes[i].1.timestamp_ms,
        None => 0,
    };
    let tb = match ib {
        Some(i) => nodes[i].1.timestamp_ms,
        None => 0,
    };
    if ta != tb {
        return ta < tb;
    }
    str_lex_lt(&b.1, &a.1)
}

/// Build the node table from the graph's declaration list.
fn build_nodes(ns: &Vec<EpochNode>) -> (out: Vec<(String, EpochNode)>)
    ensures
        out@ == init_nodes(ns@),
        out@.len() <= ns@.len(),
{
    let mut out: Vec<(String, EpochNode)> = Vec::new();
    let n = ns.len();
    proof {
        assert(out@ =~= init_nodes(ns@.take(0)));
    }
    for i in 0..n
        invariant
            n == ns@.len(),
            out@.len() <= i,
            out@ == init_nodes(ns@.take(i as int)),
    {
        let d = &ns[i];
        let copy = EpochNode {
            node_id: d.node_id.clone(),
            epoch_id: d.epoch_id,
            eare_hash: d.eare_hash.clone(),
            previous_epoch_hash: crate::desync::clone_opt_string(&d.previous_epoch_hash),
            membership_digest: crate::desync::clone_opt_string(&d.membership_digest),
            parent_id: crate::desync::clone_opt_string(&d.parent_id),
            issued_by: d.issued_by.clone(),
            timestamp_ms: d.timestamp_ms,
        };
        proof {
            assert(copy == ns@[i as int]);
        }
        let pos = lookup_node(&out, &d.node_id);
        match pos {
            Some(p) => {
                out[p].1 = copy;
            },
            None => {
                out.push((d.node_id.clone(), copy));
            },
        }
        proof {
            assert(ns@.take(i as int + 1).drop_last() =~= ns@.take(i as int));
            assert(ns@.take(i as int + 1).last() == ns@[i as int]);
            assert(out@ =~~= init_nodes(ns@.take(i as int + 1)));
        }
    }
    proof {
        assert(ns@.take(n as int) =~= ns@);
    }
    out
}

/// Check one event of the issuance stream against the scenario value
/// bounds; see `fork_event_bounded`.
fn fork_event_within_bounds(ev: &ForkEvent) -> (b: bool)
    ensures
        b == fork_event_bounded(*ev),
{
    if !(-VAL_BOUND <= ev.t && ev.t <= VAL_BOUND) {
        return false;
    }
    let delay = fault_delay_ms(&ev.faults);
    if !(-VAL_BOUND <= delay && delay <= VAL_BOUND) {
        return false;
    }
    match &ev.kind {
        ForkEventKind::ReplayAttempt { count } => match count {
            Some(c) => -VAL_BOUND <= *c && *c <= VAL_BOUND,
            None => true,
        },
        _ => true,
    }
}

/// Whether a fork scenario's values are within the engine's machine
/// limits, so that `simulate` accepts it; see `fork_scenario_bounded`.
pub fn fork_scenario_within_bounds(s: &ForkScenario) -> (b: bool)
    ensures
        b == fork_scenario_bounded(*s),
{
    if s.event_stream.len() > MAX_EVENTS || s.graph.nodes.len() > MAX_ENTITIES {
        return false;
    }
    let n = s.event_stream.len();
    for i in 0..n
        invariant
            n == s.event_stream@.len(),
            forall|j: int| 0 <= j < i ==> fork_event_bounded(#[trigger] s.event_stream@[j]),
    {
        if !fork_event_within_bounds(&s.event_stream[i]) {
            return false;
        }
    }
    true
}

/// Replay one fork scenario: order the event stream deterministically,
/// fold it through the tracker, pick the winning branch, and report. The
/// result is exactly the mathematical replay `spec_fork_simulate` under the
/// scenario's (unique) replay order; issuing an undeclared node aborts the
/// replay with a fatal corpus error.
pub fn simulate(s: &ForkScenario) -> (r: Result<Envelope, ForkError>)
    requires
        fork_scenario_bounded(*s),
    ensures
        exists|order: Seq<usize>|
            #![auto]
            is_replay_order(fork_times(*s), order) && spec_fork_simulate(*s, order)
                == fork_result_view(r),
{
    let n = s.event_stream.len();
    let mut times: Vec<i64> = Vec::new();
    proof {
        assert(times@ =~= fork_times(*s).take(0));
    }
    for i in 0..n
        invariant
            n == s.event_stream@.len(),
            times@ == fork_times(*s).take(i as int),
    {
        times.push(s.event_stream[i].t);
        proof {
            assert(times@ =~= fork_times(*s).take(i as int + 1));
        }
    }
    proof {
        assert(fork_times(*s).take(n as int) =~= fork_times(*s));
    }
    let order = schedule(&times);
    let ghost events = fork_ordered_events(*s, order@);
    let nodes = build_nodes(&s.graph.nodes);
    let mut tracker = ForkTracker {
        observed: Vec::new(),
        children: Vec::new(),
        detection: false,
        detection_time: None,
        fork_created: None,
        errors: Vec::new(),
        messages_dropped: 0,
    };
    proof {
        assert(tracker@ =~~= init_fork_state());
        assert(events.take(0) =~= Seq::<ForkEvent>::empty());
        lemma_init_nodes_len(s.graph.nodes@);
    }
    let m = order.len();
    for k in 0..m
        invariant
            fork_scenario_bounded(*s),
            m == n == s.event_stream@.len(),
            order@.len() == m,
            is_replay_order(fork_times(*s), order@),
            events == fork_ordered_events(*s, order@),
            events.len() == m,
            nodes@ == init_nodes(s.graph.nodes@),
            nodes@.len() <= MAX_ENTITIES,
            spec_fork_run(init_fork_state(), events.take(k as int), nodes@) == Ok::<
                ForkStateV,
                ForkError,
            >(tracker@),
    {
        let idx = order[k];
        proof {
            assert(order@[k as int] < s.event_stream@.len());
            assert(events[k as int] == s.event_stream@[idx as int]);
            assert(fork_event_bounded(events[k as int]));
            assert forall|i: int|
                0 <= i < events.take(k as int).len() implies fork_event_bounded(
                #[trigger] events.take(k as int)[i]) by {
                assert(events.take(k as int)[i] == events[i]);
                assert(events[i] == s.event_stream@[order@[i] as int]);
            }
            lemma_fork_run_bounded(init_fork_state(), events.take(k as int), nodes@, 0);
            crate::desync::lemma_scale_mono(VAL_BOUND as int, k as int, MAX_EVENTS as int);
        }
        let ghost pre = tracker@;
        let r = tracker.apply(&s.event_stream[idx], &nodes);
        match r {
            Ok(u) => {
                proof {
                    lemma_fork_run_decompose(
                        init_fork_state(),
                        events.take(k as int + 1),
                        nodes@,
                        k as int,
                    );
                    assert(events.take(k as int + 1).take(k as int) =~= events.take(k as int));
                    let single = events.take(k as int + 1).skip(k as int);
                    assert(single.len() == 1 && single[0] == events[k as int]);
                    assert(single.drop_first() =~= Seq::<ForkEvent>::empty());
                    assert(spec_fork_step(pre, events[k as int], nodes@) == Ok::<
                        ForkStateV,
                        ForkError,
                    >(tracker@));
                    assert(spec_fork_run(pre, single, nodes@) == Ok::<ForkStateV, ForkError>(
                        tracker@,
                    )) by {
                        reveal_with_fuel(spec_fork_run, 2);
                    }
                    assert(spec_fork_run(init_fork_state(), events.take(k as int + 1), nodes@)
                        == Ok::<ForkStateV, ForkError>(tracker@));
                }
            },
            Err(e) => {
                proof {
                    lemma_fork_run_decompose(init_fork_state(), events, nodes@, k as int);
                    assert(events.skip(k as int)[0] == events[k as int]);
                    assert(spec_fork_simulate(*s, order@) == fork_result_view(
                        Err::<Envelope, ForkError>(e),
                    ));
                }
                return Err(e);
            },
        }
    }
    proof {
        assert(events.take(m as int) =~= events);
    }
    let ghost vfinal = tracker@;

    // Gather every observed entry, epochs in first-seen order.
    let mut entries: Vec<(String, String)> = Vec::new();
    let no = tracker.observed.len();
    proof {
        assert(view_observed(tracker.observed).take(0) =~= Seq::<(i64, EpochBucketV)>::empty());
        assert(flatten_observed(view_observed(tracker.observed).take(0)).len() == 0);
        assert(entries@ =~= flatten_observed(view_observed(tracker.observed).take(0)));
    }
    for i in 0..no
        invariant
            no == tracker.observed@.len(),
            tracker@ == vfinal,
            entries@ == flatten_observed(view_observed(tracker.observed).take(i as int)),
    {
        let inner = &tracker.observed[i].1.entries;
        let ni = inner.len();
        let ghost obs_v = view_observed(tracker.observed);
        for j in 0..ni
            invariant
                no == tracker.observed@.len(),
                i < no,
                tracker@ == vfinal,
                obs_v == view_observed(tracker.observed),
                ni == tracker.observed@[i as int].1.entries@.len(),
                inner == &tracker.observed@[i as int].1.entries,
                entries@ == flatten_observed(obs_v.take(i as int)) + obs_v[i as int].1.entries.take(
                    j as int,
                ),
        {
            entries.push((inner[j].0.clone(), inner[j].1.clone()));
            proof {
                assert(obs_v[i as int].1.entries.take(j as int + 1) =~= obs_v[i as int].1.entries.take(
                    j as int,
                ).push(obs_v[i as int].1.entries[j as int]));
                assert(entries@ =~= flatten_observed(obs_v.take(i as int))
                    + obs_v[i as int].1.entries.take(j as int + 1));
            }
        }
        proof {
            assert(obs_v[i as int].1.entries.take(ni as int) =~= obs_v[i as int].1.entries);
            lemma_flatten_snoc(obs_v.take(i as int + 1));
            assert(obs_v.take(i as int + 1).drop_last() =~= obs_v.take(i as int));
            assert(obs_v.take(i as int + 1).last() == obs_v[i as int]);
            assert(entries@ =~= flatten_observed(obs_v.take(i as int + 1)));
        }
    }
    proof {
        assert(view_observed(tracker.observed).take(no as int) =~= view_observed(tracker.observed));
    }

    // Pick the winning branch.
    let mut best: Option<usize> = None;
    let ne = entries.len();
    for j in 0..ne
        invariant
            ne == entries@.len(),
            nodes@ == init_nodes(s.graph.nodes@),
            nodes@.len() <= MAX_ENTITIES,
            match best {
                Some(b) => b < ne && spec_winner(nodes@, entries@.take(j as int)) == Some(
                    entries@[b as int],
                ),
                None => j == 0 && spec_winner(nodes@, entries@.take(0)) is None,
            },
    {
        proof {
            assert(entries@.take(j as int + 1).drop_last() =~= entries@.take(j as int));
            assert(entries@.take(j as int + 1).last() == entries@[j as int]);
        }
        match best {
            None => {
                best = Some(j);
            },
            Some(b) => {
                if better(&nodes, &entries[j], &entries[b]) {
                    best = Some(j);
                }
            },
        }
    }
    proof {
        assert(entries@.take(ne as int) =~= entries@);
    }
    let (winning_node_id, winning_hash, winning_epoch_id): (
        Option<String>,
        Option<String>,
        Option<i64>,
    ) = match best {
        None => (None, None, None),
        Some(b) => {
            let wid = entries[b].0.clone();
            let whash = entries[b].1.clone();
            let weid = match lookup_node(&nodes, &entries[b].0) {
                Some(i) => Some(nodes[i].1.epoch_id),
                None => None,
            };
            (Some(wid), Some(whash), weid)
        },
    };

    // Resolve the detection reference and derive the latencies.
    proof {
        assert forall|i: int| 0 <= i < events.len() implies fork_event_bounded(
        #[trigger] events[i]) by {
            assert(events[i] == s.event_stream@[order@[i] as int]);
        }
        lemma_fork_run_bounded(init_fork_state(), events, nodes@, 0);
        crate::desync::lemma_scale_mono(VAL_BOUND as int, m as int, MAX_EVENTS as int);
    }
    let detection_reference: Option<i64> = match s.expectations.detection_reference {
        DetectionReference::ForkObservable => tracker.detection_time,
        DetectionReference::ForkCreated => match tracker.fork_created {
            Some(t) => Some(t),
            None => tracker.detection_time,
        },
    };
    let detection_ms: Option<i64> = match (tracker.detection_time, detection_reference) {
        (Some(dt), Some(dr)) => {
            let d = dt - dr;
            Some(
                if d > 0 {
                    d
                } else {
                    0
                },
            )
        },
        _ => None,
    };
    let mut merge_t: Option<i64> = None;
    proof {
        assert(events.skip(0) =~= events);
    }
    let mut k: usize = 0;
    while k < m
        invariant_except_break
            (merge_t is None),
            first_merge_t(events) == first_merge_t(events.skip(k as int)),
        invariant
            m == s.event_stream@.len() == order@.len(),
            is_replay_order(fork_times(*s), order@),
            events == fork_ordered_events(*s, order@),
            events.len() == m,
            fork_scenario_bounded(*s),
            k <= m,
        ensures
            opt_int(merge_t) == first_merge_t(events),
            (merge_t matches Some(t) ==> -VAL_BOUND <= t <= VAL_BOUND),
        decreases m - k,
    {
        let idx = order[k];
        proof {
            assert(order@[k as int] < s.event_stream@.len());
            assert(events[k as int] == s.event_stream@[idx as int]);
            assert(fork_event_bounded(events[k as int]));
            assert(events.skip(k as int)[0] == events[k as int]);
            assert(events.skip(k as int).drop_first() =~= events.skip(k as int + 1));
        }
        if let ForkEventKind::Merge = &s.event_stream[idx].kind {
            merge_t = Some(s.event_stream[idx].t);
            proof {
                assert(first_merge_t(events.skip(k as int)) == Some(
                    s.event_stream@[idx as int].t as int,
                ));
            }
            break;
        }
        k = k + 1;
    }
    proof {
        if k >= m && merge_t is None {
            assert(events.skip(m as int) =~= Seq::<ForkEvent>::empty());
        }
    }
    let reconciliation_ms: Option<i64> = match (tracker.detection_time, merge_t) {
        (Some(dt), Some(mt)) => {
            let d = mt - dt;
            Some(
                if d > 0 {
                    d
                } else {
                    0
                },
            )
        },
        _ => None,
    };
    let env = Envelope {
        scenario_id: s.scenario_id.clone(),
        language: "rust".to_owned(),
        status: Status::Pass,
        detection: tracker.detection,
        detection_ms,
        reconciliation_ms,
        winning_epoch_id,
        winning_hash,
        winning_node_id,
        messages_dropped: tracker.messages_dropped,
        healing_actions: Vec::new(),
        errors: tracker.errors,
        false_positive_warnings: 0,
        false_positive_hard_errors: 0,
        notes: Vec::new(),
        failures: Vec::new(),
    };
    proof {
        assert(env@ =~~= spec_fork_finish(*s, vfinal, events, nodes@));
        assert(spec_fork_simulate(*s, order@) == fork_result_view(
            Ok::<Envelope, ForkError>(env),
        ));
    }
    Ok(env)
}


/// A required violation code the replay never produced.
pub open spec fn fork_missing_categories(
    exp_codes: Seq<ViolationCode>,
    errors: Seq<ViolationCode>,
) -> bool {
    exists|i: int| 0 <= i < exp_codes.len() && !errors.contains(#[trigger] exp_codes[i])
}

/// The failing detection checks of a fork envelope.
pub open spec fn spec_fork_eval_detection(exp: ForkExpectations, e: EnvelopeV) -> Seq<ForkFailure> {
    (if e.detection != exp.detected {
        seq![ForkFailure::DetectionMismatch]
    } else {
        Seq::empty()
    }) + if exp.detected {
        match e.detection_ms {
            None => seq![ForkFailure::MissingDetectionMs],
            Some(dm) => if exp.max_detection_ms > 0 && dm > exp.max_detection_ms {
                seq![ForkFailure::DetectionSla]
            } else {
                Seq::empty()
            },
        }
    } else {
        Seq::empty()
    }
}

/// The failing reconciliation checks: the winning branch, healing, and the
/// allowed replay gap.
pub open spec fn spec_fork_eval_outcome(exp: ForkExpectations, e: EnvelopeV) -> Seq<ForkFailure> {
    (if exp.reconciled_epoch.eare_hash is Some && e.winning_hash is Some
        && exp.reconciled_epoch.eare_hash->0@ != e.winning_hash->0@ {
        seq![ForkFailure::WinningHashMismatch]
    } else {
        Seq::<ForkFailure>::empty()
    }) + (if exp.reconciled_epoch.epoch_id is Some && e.winning_epoch_id is Some
        && exp.reconciled_epoch.epoch_id->0 != e.winning_epoch_id->0 {
        seq![ForkFailure::WinningEpochMismatch]
    } else {
        Seq::<ForkFailure>::empty()
    }) + (if exp.healing_required {
        match e.reconciliation_ms {
            None => seq![ForkFailure::MissingReconciliation],
            Some(rm) => if exp.max_reconciliation_ms > 0 && rm > exp.max_reconciliation_ms {
                seq![ForkFailure::ReconciliationSla]
            } else {
                Seq::empty()
            },
        }
    } else {
        Seq::<ForkFailure>::empty()
    }) + (if exp.allow_replay_gap.max_messages > 0 && e.messages_dropped
        > exp.allow_replay_gap.max_messages {
        seq![ForkFailure::ReplayGapMessages]
    } else {
        Seq::<ForkFailure>::empty()
    })
}

/// The failing containment check of the required violation codes.
pub open spec fn spec_fork_eval_categories(exp: ForkExpectations, e: EnvelopeV) -> Seq<
    ForkFailure,
> {
    if fork_missing_categories(exp.expected_error_categories@, e.errors) {
        seq![ForkFailure::MissingErrorCategories]
    } else {
        Seq::empty()
    }
}

/// Every failing check of a fork envelope against the scenario's
/// expectations, in a stable order.
pub open spec fn spec_fork_eval(exp: ForkExpectations, e: EnvelopeV) -> Seq<ForkFailure> {
    spec_fork_eval_detection(exp, e) + spec_fork_eval_outcome(exp, e) + spec_fork_eval_categories(
        exp,
        e,
    )
}

fn fork_eval_detection(exp: &ForkExpectations, env: &Envelope, failures: &mut Vec<ForkFailure>)
    ensures
        final(failures)@ == old(failures)@ + spec_fork_eval_detection(*exp, env@),
{
    let ghost f0 = failures@;
    if env.detection != exp.detected {
        failures.push(ForkFailure::DetectionMismatch);
    }
    if exp.detected {
        match env.detection_ms {
            None => {
                failures.push(ForkFailure::MissingDetectionMs);
            },
            Some(dm) => {
                if exp.max_detection_ms > 0 && dm > exp.max_detection_ms {
                    failures.push(ForkFailure::DetectionSla);
                }
            },
        }
    }
    proof {
        assert(failures@ =~= f0 + spec_fork_eval_detection(*exp, env@));
    }
}

fn fork_eval_outcome(exp: &ForkExpectations, env: &Envelope, failures: &mut Vec<ForkFailure>)
    ensures
        final(failures)@ == old(failures)@ + spec_fork_eval_outcome(*exp, env@),
{
    let ghost f0 = failures@;
    if let (Some(exp_hash), Some(win_hash)) = (&exp.reconciled_epoch.eare_hash, &env.winning_hash) {
        if !exp_hash.eq(win_hash) {
            failures.push(ForkFailure::WinningHashMismatch);
        }
    }
    if let (Some(exp_epoch), Some(win_epoch)) = (
        exp.reconciled_epoch.epoch_id,
        env.winning_epoch_id,
    ) {
        if exp_epoch != win_epoch {
            failures.push(ForkFailure::WinningEpochMismatch);
        }
    }
    if exp.healing_required {
        match env.reconciliation_ms {
            None => {
                failures.push(ForkFailure::MissingReconciliation);
            },
            Some(rm) => {
                if exp.max_reconciliation_ms > 0 && rm > exp.max_reconciliation_ms {
                    failures.push(ForkFailure::ReconciliationSla);
                }
            },
        }
    }
    if exp.allow_replay_gap.max_messages > 0 && env.messages_dropped
        > exp.allow_replay_gap.max_messages {
        failures.push(ForkFailure::ReplayGapMessages);
    }
    proof {
        assert(failures@ =~= f0 + spec_fork_eval_outcome(*exp, env@));
    }
}

fn fork_eval_categories(exp: &ForkExpectations, env: &Envelope, failures: &mut Vec<ForkFailure>)
    ensures
        final(failures)@ == old(failures)@ + spec_fork_eval_categories(*exp, env@),
{
    let ghost f0 = failures@;
    let nc = exp.expected_error_categories.len();
    let mut missing = false;
    for i in 0..nc
        invariant
            nc == exp.expected_error_categories@.len(),
            missing == exists|j: int|
                0 <= j < i && !env.errors@.contains(#[trigger] exp.expected_error_categories@[j]),
            failures@ == f0,
    {
        if !contains(&env.errors, exp.expected_error_categories[i]) {
            missing = true;
        }
    }
    if missing {
        failures.push(ForkFailure::MissingErrorCategories);
    }
    proof {
        assert(failures@ =~= f0 + spec_fork_eval_categories(*exp, env@));
    }
}

/// The envelope after evaluation: failing checks fail the scenario and are
/// listed; a clean envelope is untouched.
pub open spec fn spec_fork_evaluate(s: ForkScenario, e: EnvelopeV) -> EnvelopeV {
    let fl = spec_fork_eval(s.expectations, e);
    if fl.len() > 0 {
        EnvelopeV { status: Status::Fail, failures: fl, ..e }
    } else {
        e
    }
}

/// Evaluate a fork envelope against the scenario's expectations; see
/// `spec_fork_evaluate`.
pub fn evaluate(s: &ForkScenario, env: &mut Envelope)
    ensures
        final(env)@ == spec_fork_evaluate(*s, old(env)@),
{
    let mut failures: Vec<ForkFailure> = Vec::new();
    fork_eval_detection(&s.expectations, env, &mut failures);
    fork_eval_outcome(&s.expectations, env, &mut failures);
    fork_eval_categories(&s.expectations, env, &mut failures);
    proof {
        assert(failures@ =~= spec_fork_eval(s.expectations, env@));
    }
    if failures.len() > 0 {
        env.status = Status::Fail;
        env.failures = failures;
    }
    proof {
        assert(env@ =~~= spec_fork_evaluate(*s, old(env)@));
    }
}

// ---------------------------------------------------------------------------
// Laws of the fork tracker.
// ---------------------------------------------------------------------------

/// Issuing a sibling whose hash disagrees with what is already observed at
/// its epoch flags the fork: `EPOCH_FORK_DETECTED` is recorded, detection
/// latches at this event's time (plus any injected validation delay), and
/// the fork-creation time latches at the earliest issuance among the
/// conflicting siblings — with a first sibling already recorded at the
/// epoch no later than this event, the epoch's first issuance time, the
/// earlier of the two.
pub proof fn lemma_sibling_fork_flagged(
    v: ForkStateV,
    t: int,
    node_id: String,
    faults: Seq<Fault>,
    nodes: Seq<(String, EpochNode)>,
)
    requires
        has_key(nodes, node_id),
        ({
            let node = nodes[find_key(nodes, node_id)].1;
            let ei = find_key_int(v.observed, node.epoch_id);
            &&& ei >= 0
            &&& ei < v.observed.len()
            &&& v.observed[ei].1.entries.len() >= 1
            &&& !entries_contain_hash(v.observed[ei].1.entries, node.eare_hash)
        }),
        v.detection_time is None,
        v.fork_created is None,
    ensures
        spec_fork_issue(v, t, node_id, faults, nodes) is Ok,
        ({
            let node = nodes[find_key(nodes, node_id)].1;
            let w = spec_fork_issue(v, t, node_id, faults, nodes)->Ok_0;
            let ei = find_key_int(v.observed, node.epoch_id);
            &&& w.detection
            &&& w.detection_time == Some(t + spec_fault_delay_ms(faults))
            &&& w.fork_created == Some(spec_fork_time(v, node, t))
            &&& spec_fork_time(v, node, t) <= v.observed[ei].1.first_t
            &&& spec_fork_time(v, node, t) <= t
            &&& (!parent_conflict(v, node) ==> spec_fork_time(v, node, t) == if v.observed[ei].1.first_t
                < t {
                v.observed[ei].1.first_t
            } else {
                t
            })
            &&& w.errors.contains(ViolationCode::EpochForkDetected)
        }),
{
    let node = nodes[find_key(nodes, node_id)].1;
    lemma_find_key_int(v.observed, node.epoch_id);
    let w = spec_fork_issue(v, t, node_id, faults, nodes)->Ok_0;
    assert(w.errors.contains(ViolationCode::EpochForkDetected)) by {
        let e1 = spec_push_err(v.errors, ViolationCode::EpochForkDetected);
        assert(e1.contains(ViolationCode::EpochForkDetected)) by {
            if !v.errors.contains(ViolationCode::EpochForkDetected) {
                assert(e1[e1.len() - 1] == ViolationCode::EpochForkDetected);
            }
        }
        if w.errors != e1 {
            let e2 = spec_push_err(e1, ViolationCode::HashChainBreak);
            if !e1.contains(ViolationCode::HashChainBreak) {
                let wi = choose|i: int|
                    0 <= i < e1.len() && e1[i] == ViolationCode::EpochForkDetected;
                assert(e2[wi] == ViolationCode::EpochForkDetected);
            }
        }
    }
}

/// How many issuance events a stream holds.
pub open spec fn count_issues(events: Seq<ForkEvent>) -> int
    decreases events.len(),
{
    if events.len() == 0 {
        0
    } else {
        (if events[0].kind is EpochIssue {
            1int
        } else {
            0int
        }) + count_issues(events.drop_first())
    }
}

/// Every key of the node table reads as its node's own identity.
pub open spec fn nodes_keys_match(nodes: Seq<(String, EpochNode)>) -> bool {
    forall|i: int| 0 <= i < nodes.len() ==> (#[trigger] nodes[i]).0@ == nodes[i].1.node_id@
}

/// The node table built from a declaration list keys every node by its own
/// identity.
pub proof fn lemma_init_nodes_keys(ns: Seq<EpochNode>)
    ensures
        nodes_keys_match(init_nodes(ns)),
    decreases ns.len(),
{
    if ns.len() > 0 {
        lemma_init_nodes_keys(ns.drop_last());
        lemma_find_key(init_nodes(ns.drop_last()), ns.last().node_id);
        assert forall|i: int|
            0 <= i < init_nodes(ns).len() implies (#[trigger] init_nodes(ns)[i]).0@ == init_nodes(
            ns,
        )[i].1.node_id@ by {
            let m = init_nodes(ns.drop_last());
            if i < m.len() && init_nodes(ns)[i] == m[i] {
                assert(m[i].0@ == m[i].1.node_id@);
            }
        }
    }
}

/// Every observed entry names a node of the table.
pub open spec fn observed_well_formed(
    observed: Seq<(i64, EpochBucketV)>,
    nodes: Seq<(String, EpochNode)>,
) -> bool {
    forall|b: int, j: int|
        0 <= b < observed.len() && 0 <= j < (#[trigger] observed[b]).1.entries.len() ==> find_key(
            nodes,
            #[trigger] observed[b].1.entries[j].0,
        ) >= 0
}

/// One issuance grows the candidate set by exactly one entry; other events
/// leave it alone. Well-formedness of the entries is preserved.
pub proof fn lemma_fork_step_entries(
    v: ForkStateV,
    ev: ForkEvent,
    nodes: Seq<(String, EpochNode)>,
)
    requires
        nodes_keys_match(nodes),
        observed_well_formed(v.observed, nodes),
    ensures
        spec_fork_step(v, ev, nodes) is Ok ==> flatten_observed(
            spec_fork_step(v, ev, nodes)->Ok_0.observed,
        ).len() == flatten_observed(v.observed).len() + (if ev.kind is EpochIssue {
            1int
        } else {
            0int
        }),
        spec_fork_step(v, ev, nodes) is Ok ==> observed_well_formed(
            spec_fork_step(v, ev, nodes)->Ok_0.observed,
            nodes,
        ),
{
    match ev.kind {
        ForkEventKind::EpochIssue { node_id } => {
            lemma_find_key(nodes, node_id);
            let ni = find_key(nodes, node_id);
            if ni >= 0 {
                let node = nodes[ni].1;
                lemma_find_key_int(v.observed, node.epoch_id);
                let w = spec_fork_step(v, ev, nodes)->Ok_0;
                // The fresh entry names a declared node.
                assert(find_key(nodes, node.node_id) >= 0) by {
                    lemma_find_key(nodes, node.node_id);
                    if find_key(nodes, node.node_id) == -1 {
                        assert(nodes[ni].0@ != node.node_id@);
                    }
                }
                assert(spec_fork_step(v, ev, nodes) is Ok);
                let ei = find_key_int(v.observed, node.epoch_id);
                if ei == -1 {
                    lemma_flatten_snoc(w.observed);
                    assert(w.observed.drop_last() =~= v.observed);
                    assert(w.observed.last().1.entries =~= Seq::<(String, String)>::empty().push(
                        (node.node_id, node.eare_hash),
                    ));
                    assert(flatten_observed(w.observed).len() == flatten_observed(v.observed).len()
                        + 1);
                    assert forall|b: int, j: int|
                        0 <= b < w.observed.len() && 0 <= j < (
                    #[trigger] w.observed[b]).1.entries.len() implies find_key(
                        nodes,
                        #[trigger] w.observed[b].1.entries[j].0,
                    ) >= 0 by {
                        if b < v.observed.len() {
                            assert(w.observed[b] == v.observed[b]);
                            assert(find_key(nodes, v.observed[b].1.entries[j].0) >= 0);
                        } else {
                            assert(w.observed[b].1.entries[j].0 == node.node_id);
                        }
                    }
                    assert(observed_well_formed(w.observed, nodes));
                } else {
                    lemma_flatten_update_push(v.observed, ei, (node.node_id, node.eare_hash));
                    assert(flatten_observed(w.observed).len() == flatten_observed(v.observed).len()
                        + 1);
                    assert forall|b: int, j: int|
                        0 <= b < w.observed.len() && 0 <= j < (
                    #[trigger] w.observed[b]).1.entries.len() implies find_key(
                        nodes,
                        #[trigger] w.observed[b].1.entries[j].0,
                    ) >= 0 by {
                        if b != ei {
                            assert(w.observed[b] == v.observed[b]);
                            assert(find_key(nodes, v.observed[b].1.entries[j].0) >= 0);
                        } else if j < v.observed[ei].1.entries.len() {
                            assert(w.observed[ei].1.entries[j] == v.observed[ei].1.entries[j]);
                            assert(find_key(nodes, v.observed[ei].1.entries[j].0) >= 0);
                        } else {
                            assert(w.observed[ei].1.entries[j].0 == node.node_id);
                        }
                    }
                    assert(observed_well_formed(w.observed, nodes));
                }
                assert(flatten_observed(w.observed).len() == flatten_observed(v.observed).len()
                    + 1);
            }
        },
        _ => {
            match spec_fork_step(v, ev, nodes) {
                Ok(w) => {
                    assert(w.observed == v.observed);
                    assert(observed_well_formed(w.observed, nodes));
                },
                Err(e) => {},
            }
        },
    }
}

/// Pushing one entry into one bucket grows the flattened candidate set by
/// exactly one.
pub proof fn lemma_flatten_update_push(
    observed: Seq<(i64, EpochBucketV)>,
    ei: int,
    entry: (String, String),
)
    requires
        0 <= ei < observed.len(),
    ensures
        flatten_observed(
            observed.update(
                ei,
                (
                    observed[ei].0,
                    EpochBucketV {
                        first_t: observed[ei].1.first_t,
                        entries: observed[ei].1.entries.push(entry),
                    },
                ),
            ),
        ).len() == flatten_observed(observed).len() + 1,
    decreases observed.len(),
{
    let updated = observed.update(
        ei,
        (
            observed[ei].0,
            EpochBucketV {
                first_t: observed[ei].1.first_t,
                entries: observed[ei].1.entries.push(entry),
            },
        ),
    );
    if ei == 0 {
        assert(updated.drop_first() =~= observed.drop_first());
    } else {
        lemma_flatten_update_push(observed.drop_first(), ei - 1, entry);
        assert(updated[0] == observed[0]);
        assert(updated.drop_first() =~= observed.drop_first().update(
            ei - 1,
            (
                observed.drop_first()[ei - 1].0,
                EpochBucketV {
                    first_t: observed.drop_first()[ei - 1].1.first_t,
                    entries: observed.drop_first()[ei - 1].1.entries.push(entry),
                },
            ),
        ));
    }
}

/// The fold's candidate set holds exactly one entry per issuance event,
/// and every entry names a declared node.
pub proof fn lemma_fork_run_entries(
    v: ForkStateV,
    events: Seq<ForkEvent>,
    nodes: Seq<(String, EpochNode)>,
)
    requires
        nodes_keys_match(nodes),
        observed_well_formed(v.observed, nodes),
    ensures
        spec_fork_run(v, events, nodes) is Ok ==> flatten_observed(
            spec_fork_run(v, events, nodes)->Ok_0.observed,
        ).len() == flatten_observed(v.observed).len() + count_issues(events),
        spec_fork_run(v, events, nodes) is Ok ==> observed_well_formed(
            spec_fork_run(v, events, nodes)->Ok_0.observed,
            nodes,
        ),
    decreases events.len(),
{
    if events.len() > 0 {
        lemma_fork_step_entries(v, events[0], nodes);
        match spec_fork_step(v, events[0], nodes) {
            Ok(v1) => {
                lemma_fork_run_entries(v1, events.drop_first(), nodes);
            },
            Err(e) => {},
        }
    }
}

/// The winner exists exactly when an issuance was replayed: after a clean
/// replay, the winning node, hash and epoch are all present iff the
/// ordered stream held at least one `epoch_issue` event, and all absent
/// otherwise.
pub proof fn lemma_fork_winner_presence(s: ForkScenario, order: Seq<usize>, e: EnvelopeV)
    requires
        spec_fork_simulate(s, order) == Ok::<EnvelopeV, ForkError>(e),
    ensures
        (e.winning_node_id is Some) == (count_issues(fork_ordered_events(s, order)) > 0),
        (e.winning_hash is Some) == (count_issues(fork_ordered_events(s, order)) > 0),
        (e.winning_epoch_id is Some) == (count_issues(fork_ordered_events(s, order)) > 0),
{
    let nodes = init_nodes(s.graph.nodes@);
    let events = fork_ordered_events(s, order);
    let run = spec_fork_run(init_fork_state(), events, nodes);
    let v = run->Ok_0;
    lemma_init_nodes_keys(s.graph.nodes@);
    lemma_count_issues_nonneg(events);
    lemma_fork_run_entries(init_fork_state(), events, nodes);
    let entries = flatten_observed(v.observed);
    assert(entries.len() == count_issues(events));
    if entries.len() > 0 {
        lemma_winner_minimal(nodes, entries);
        let w = spec_winner(nodes, entries)->0;
        let wi = choose|i: int| 0 <= i < entries.len() && entries[i] == w;
        lemma_flat_well_formed(v.observed, nodes, wi);
        assert(find_key(nodes, w.0) >= 0);
    }
}

/// A well-formed candidate set names a declared node at every position.
pub proof fn lemma_flat_well_formed(
    observed: Seq<(i64, EpochBucketV)>,
    nodes: Seq<(String, EpochNode)>,
    i: int,
)
    requires
        observed_well_formed(observed, nodes),
        0 <= i < flatten_observed(observed).len(),
    ensures
        find_key(nodes, flatten_observed(observed)[i].0) >= 0,
    decreases observed.len(),
{
    if observed.len() > 0 {
        let head = observed[0].1.entries;
        if i < head.len() {
            assert(flatten_observed(observed)[i] == head[i]);
            assert(find_key(nodes, observed[0].1.entries[i].0) >= 0);
        } else {
            assert forall|b: int, j: int|
                0 <= b < observed.drop_first().len() && 0 <= j < (
            #[trigger] observed.drop_first()[b]).1.entries.len() implies find_key(
                nodes,
                #[trigger] observed.drop_first()[b].1.entries[j].0,
            ) >= 0 by {
                assert(observed.drop_first()[b] == observed[b + 1]);
                assert(find_key(nodes, observed[b + 1].1.entries[j].0) >= 0);
            }
            lemma_flat_well_formed(observed.drop_first(), nodes, i - head.len());
            assert(flatten_observed(observed)[i] == flatten_observed(observed.drop_first())[i
                - head.len()]);
        }
    }
}

/// There are never negatively many issuance events.
pub proof fn lemma_count_issues_nonneg(events: Seq<ForkEvent>)
    ensures
        0 <= count_issues(events) <= events.len(),
    decreases events.len(),
{
    if events.len() > 0 {
        lemma_count_issues_nonneg(events.drop_first());
    }
}

/// The winning branch honours the declared tie-break: it is one of the
/// observed candidates, and no candidate outranks it under (depth
/// descending, epoch descending, timestamp ascending, hash descending).
pub proof fn lemma_fork_winner_rule(
    s: ForkScenario,
    order: Seq<usize>,
    e: EnvelopeV,
    v: ForkStateV,
)
    requires
        spec_fork_run(
            init_fork_state(),
            fork_ordered_events(s, order),
            init_nodes(s.graph.nodes@),
        ) == Ok::<ForkStateV, ForkError>(v),
        spec_fork_simulate(s, order) == Ok::<EnvelopeV, ForkError>(e),
        flatten_observed(v.observed).len() > 0,
    ensures
        e.winning_node_id is Some,
        e.winning_hash is Some,
        ({
            let entries = flatten_observed(v.observed);
            let nodes = init_nodes(s.graph.nodes@);
            let w = (e.winning_node_id->0, e.winning_hash->0);
            &&& entries.contains(w)
            &&& forall|j: int| 0 <= j < entries.len() ==> !spec_better(nodes, #[trigger] entries[j], w)
        }),
{
    let nodes = init_nodes(s.graph.nodes@);
    let entries = flatten_observed(v.observed);
    lemma_winner_minimal(nodes, entries);
}

} // verus!
