//! Corrupted-record tracker.
//!
//! Validates a linear chain of epoch records: the node list is ordered by
//! embedded epoch id (not event time) and each node's declared previous
//! hash is held against the hash of the record before it. Injected
//! corruptions are looked up by target and kind and mapped to fixed
//! violation codes; unmapped corruption kinds are recorded as informational
//! notes, never silently dropped.

use vstd::prelude::*;

use crate::codes::Status;
use crate::codes::ViolationCode;
use crate::codes::contains;
use crate::codes::push_err;
use crate::codes::spec_push_err;
use crate::desync::MAX_ENTITIES;
use crate::scheduler::is_replay_order;
use crate::scheduler::schedule;

verus! {

/// Group metadata for a record chain.
pub struct EareGroupContext {
    pub group_id: String,
    pub membership_version: i64,
    pub epoch_size_limit: i64,
}

/// One chain-linked epoch record.
pub struct EareNode {
    pub node_id: String,
    pub epoch_id: i64,
    pub eare_hash: String,
    pub issued_by: String,
    pub previous_epoch_hash: String,
    pub membership_digest: String,
}

/// What kind of corruption was injected.
pub enum CorruptionKind {
    InvalidSignature,
    InvalidPop,
    HashChainBreak,
    TruncatedEare,
    ExtraFields,
    PayloadTampered,
    TamperPayload,
    StaleEpochRef,
    /// A corruption kind the tracker does not map; its name is kept for
    /// the informational note.
    Other(String),
}

/// One injected corruption: a kind aimed at one record, or at every
/// record when no target is named.
pub struct Corruption {
    pub kind: CorruptionKind,
    pub target_node: Option<String>,
    pub reason: Option<String>,
}

/// The scenario's declared outcome contract.
pub struct EareExpectations {
    pub should_detect: bool,
    pub expected_errors: Vec<ViolationCode>,
    pub max_detection_ms: i64,
    pub allow_partial_accept: bool,
    pub residual_divergence_allowed: bool,
}

/// One corrupted-record scenario.
pub struct EareScenario {
    pub scenario_id: String,
    pub tags: Vec<String>,
    pub group_context: EareGroupContext,
    pub nodes: Vec<EareNode>,
    pub corruptions: Vec<Corruption>,
    pub expectations: EareExpectations,
}

/// An informational note of the tracker.
pub enum EareNote {
    /// A corruption kind the tracker does not map, by name.
    UnhandledCorruption(String),
}

impl EareNote {
    /// The note's text, as it appears in result files.
    pub fn message(&self) -> (r: String)
        ensures
            (self matches EareNote::UnhandledCorruption(name) ==> r@ == "unhandled corruption "@
                + name@),
    {
        proof {
            reveal_strlit("unhandled corruption ");
        }
        match self {
            EareNote::UnhandledCorruption(name) => crate::text::concat2(
                "unhandled corruption ",
                name.as_str(),
            ),
        }
    }
}

/// Mathematical value of the tracker's state.
#[verifier::ext_equal]
pub ghost struct EareStateV {
    pub last_hash: Option<String>,
    pub hash_breaks: int,
    pub accepted: int,
    pub rejected: int,
    pub errors: Seq<ViolationCode>,
    pub notes: Seq<EareNote>,
}

/// The bucket a corruption lands in: its target's identity, or the
/// wildcard bucket `*` when no record is named.
pub open spec fn corr_key(c: Corruption) -> Seq<char> {
    match c.target_node {
        Some(t) => t@,
        None => "*"@,
    }
}

/// One corruption's effect on the tracker.
pub open spec fn spec_apply_corruption(st: EareStateV, c: Corruption) -> EareStateV {
    match c.kind {
        CorruptionKind::InvalidSignature => EareStateV {
            errors: spec_push_err(st.errors, ViolationCode::InvalidSignature),
            ..st
        },
        CorruptionKind::InvalidPop => EareStateV {
            errors: spec_push_err(st.errors, ViolationCode::InvalidPop),
            ..st
        },
        CorruptionKind::HashChainBreak => EareStateV {
            errors: spec_push_err(st.errors, ViolationCode::HashChainBreak),
            hash_breaks: st.hash_breaks + 1,
            ..st
        },
        CorruptionKind::TruncatedEare => EareStateV {
            errors: spec_push_err(st.errors, ViolationCode::TruncatedEare),
            rejected: st.rejected + 1,
            ..st
        },
        CorruptionKind::ExtraFields => EareStateV {
            errors: spec_push_err(st.errors, ViolationCode::ExtraFields),
            ..st
        },
        CorruptionKind::PayloadTampered => EareStateV {
            errors: spec_push_err(st.errors, ViolationCode::PayloadTampered),
            ..st
        },
        CorruptionKind::TamperPayload => EareStateV {
            errors: spec_push_err(st.errors, ViolationCode::PayloadTampered),
            ..st
        },
        CorruptionKind::StaleEpochRef => EareStateV {
            errors: spec_push_err(st.errors, ViolationCode::StaleEpochRef),
            ..st
        },
        CorruptionKind::Other(name) => EareStateV {
            notes: st.notes.push(EareNote::UnhandledCorruption(name)),
            ..st
        },
    }
}

/// Apply, in declaration order, every corruption of one bucket.
pub open spec fn spec_apply_bucket(st: EareStateV, corrs: Seq<Corruption>, key: Seq<char>) -> EareStateV
    decreases corrs.len(),
{
    if corrs.len() == 0 {
        st
    } else {
        let st1 = if corr_key(corrs[0]) == key {
            spec_apply_corruption(st, corrs[0])
        } else {
            st
        };
        spec_apply_bucket(st1, corrs.drop_first(), key)
    }
}

/// One record of the ordered chain: its declared previous hash is held
/// against the hash of the record before it, then the corruptions aimed at
/// it and at every record are applied.
pub open spec fn spec_eare_node(st: EareStateV, node: EareNode, corrs: Seq<Corruption>) -> EareStateV {
    let st1 = match st.last_hash {
        Some(prev) => if node.previous_epoch_hash@ != prev@ {
            EareStateV {
                errors: spec_push_err(st.errors, ViolationCode::HashChainBreak),
                hash_breaks: st.hash_breaks + 1,
                rejected: st.rejected + 1,
                ..st
            }
        } else {
            EareStateV { accepted: st.accepted + 1, ..st }
        },
        None => EareStateV { accepted: st.accepted + 1, ..st },
    };
    let st2 = EareStateV { last_hash: Some(node.eare_hash), ..st1 };
    let st3 = spec_apply_bucket(st2, corrs, node.node_id@);
    spec_apply_bucket(st3, corrs, "*"@)
}

/// Fold of `spec_eare_node` over the ordered chain.
pub open spec fn spec_eare_run(st: EareStateV, nodes: Seq<EareNode>, corrs: Seq<Corruption>) -> EareStateV
    decreases nodes.len(),
{
    if nodes.len() == 0 {
        st
    } else {
        spec_eare_run(spec_eare_node(st, nodes[0], corrs), nodes.drop_first(), corrs)
    }
}

/// The EARE fold appends one record at a time.
pub proof fn lemma_eare_run_snoc(st: EareStateV, nodes: Seq<EareNode>, corrs: Seq<Corruption>)
    requires
        nodes.len() > 0,
    ensures
        spec_eare_run(st, nodes, corrs) == spec_eare_node(
            spec_eare_run(st, nodes.drop_last(), corrs),
            nodes.last(),
            corrs,
        ),
    decreases nodes.len(),
{
    if nodes.len() == 1 {
        assert(nodes.drop_last().len() == 0);
        assert(nodes.drop_first().len() == 0);
    } else {
        lemma_eare_run_snoc(spec_eare_node(st, nodes[0], corrs), nodes.drop_first(), corrs);
        assert(nodes.drop_first().drop_last() =~= nodes.drop_last().drop_first());
        assert(nodes.drop_first().last() == nodes.last());
        assert(nodes.drop_last()[0] == nodes[0]);
    }
}

/// The tracker before any record is read.
pub open spec fn init_eare_state() -> EareStateV {
    EareStateV {
        last_hash: None,
        hash_breaks: 0,
        accepted: 0,
        rejected: 0,
        errors: Seq::empty(),
        notes: Seq::empty(),
    }
}

/// Tracker counters within bounds after reading `steps` records, each with
/// at most `per` corruption applications.
pub open spec fn eare_state_bounded(v: EareStateV, budget: int) -> bool {
    &&& 0 <= v.hash_breaks <= budget
    &&& 0 <= v.accepted <= budget
    &&& 0 <= v.rejected <= budget
}

/// One bucket pass raises each counter by at most the bucket size.
pub proof fn lemma_bucket_bounded(st: EareStateV, corrs: Seq<Corruption>, key: Seq<char>, budget: int)
    requires
        eare_state_bounded(st, budget),
    ensures
        eare_state_bounded(spec_apply_bucket(st, corrs, key), budget + corrs.len()),
    decreases corrs.len(),
{
    if corrs.len() > 0 {
        let st1 = if corr_key(corrs[0]) == key {
            spec_apply_corruption(st, corrs[0])
        } else {
            st
        };
        assert(eare_state_bounded(st1, budget + 1));
        lemma_bucket_bounded(st1, corrs.drop_first(), key, budget + 1);
    }
}

/// The fold keeps every counter within the work it can have done.
pub proof fn lemma_eare_run_bounded(
    st: EareStateV,
    nodes: Seq<EareNode>,
    corrs: Seq<Corruption>,
    budget: int,
)
    requires
        eare_state_bounded(st, budget),
    ensures
        eare_state_bounded(
            spec_eare_run(st, nodes, corrs),
            budget + nodes.len() * (1 + 2 * corrs.len()),
        ),
    decreases nodes.len(),
{
    if nodes.len() == 0 {
        assert(nodes.len() * (1 + 2 * corrs.len()) == 0) by (nonlinear_arith)
            requires
                nodes.len() == 0,
        ;
    } else {
        let st1 = spec_eare_node(st, nodes[0], corrs);
        assert(eare_state_bounded(st1, budget + 1 + 2 * corrs.len())) by {
            let sta = match st.last_hash {
                Some(prev) => if nodes[0].previous_epoch_hash@ != prev@ {
                    EareStateV {
                        errors: spec_push_err(st.errors, ViolationCode::HashChainBreak),
                        hash_breaks: st.hash_breaks + 1,
                        rejected: st.rejected + 1,
                        ..st
                    }
                } else {
                    EareStateV { accepted: st.accepted + 1, ..st }
                },
                None => EareStateV { accepted: st.accepted + 1, ..st },
            };
            let stb = EareStateV { last_hash: Some(nodes[0].eare_hash), ..sta };
            assert(eare_state_bounded(stb, budget + 1));
            lemma_bucket_bounded(stb, corrs, nodes[0].node_id@, budget + 1);
            lemma_bucket_bounded(
                spec_apply_bucket(stb, corrs, nodes[0].node_id@),
                corrs,
                "*"@,
                budget + 1 + corrs.len(),
            );
            assert(st1 == spec_apply_bucket(
                spec_apply_bucket(stb, corrs, nodes[0].node_id@),
                corrs,
                "*"@,
            ));
            assert(budget + 1 + corrs.len() + corrs.len() == budget + 1 + 2 * corrs.len());
        }
        lemma_eare_run_bounded(st1, nodes.drop_first(), corrs, budget + 1 + 2 * corrs.len());
        assert(budget + 1 + 2 * corrs.len() + (nodes.len() - 1) * (1 + 2 * corrs.len()) == budget
            + nodes.len() * (1 + 2 * corrs.len())) by (nonlinear_arith);
    }
}

/// The metrics an EARE replay reports.
pub struct EareMetrics {
    pub chain_length: i64,
    pub hash_chain_breaks: i64,
    pub corruptions_applied: i64,
    pub accepted_nodes: i64,
    pub rejected_nodes: i64,
}

/// Mathematical value of the EARE metrics.
#[verifier::ext_equal]
pub ghost struct EareMetricsV {
    pub chain_length: int,
    pub hash_chain_breaks: int,
    pub corruptions_applied: int,
    pub accepted_nodes: int,
    pub rejected_nodes: int,
}

impl View for EareMetrics {
    type V = EareMetricsV;

    open spec fn view(&self) -> EareMetricsV {
        EareMetricsV {
            chain_length: self.chain_length as int,
            hash_chain_breaks: self.hash_chain_breaks as int,
            corruptions_applied: self.corruptions_applied as int,
            accepted_nodes: self.accepted_nodes as int,
            rejected_nodes: self.rejected_nodes as int,
        }
    }
}

/// What one EARE replay reports before evaluation.
pub struct EareOutcome {
    pub detection: bool,
    pub detection_ms: Option<i64>,
    pub errors: Vec<ViolationCode>,
    pub metrics: EareMetrics,
    pub notes: Vec<EareNote>,
}

/// Mathematical value of an EARE replay's report.
#[verifier::ext_equal]
pub ghost struct EareOutcomeV {
    pub detection: bool,
    pub detection_ms: Option<int>,
    pub errors: Seq<ViolationCode>,
    pub metrics: EareMetricsV,
    pub notes: Seq<EareNote>,
}

impl View for EareOutcome {
    type V = EareOutcomeV;

    open spec fn view(&self) -> EareOutcomeV {
        EareOutcomeV {
            detection: self.detection,
            detection_ms: crate::desync::opt_int(self.detection_ms),
            errors: self.errors@,
            metrics: self.metrics@,
            notes: self.notes@,
        }
    }
}

/// The epoch ids of the declared chain, in declaration order.
pub open spec fn eare_epochs(s: EareScenario) -> Seq<i64> {
    s.nodes@.map_values(|n: EareNode| n.epoch_id)
}

/// The declared chain ordered by epoch id, declaration order breaking
/// ties.
pub open spec fn eare_ordered_nodes(s: EareScenario, order: Seq<usize>) -> Seq<EareNode> {
    Seq::new(order.len(), |i: int| s.nodes@[order[i] as int])
}

/// Every count the scenario carries is within the engine's bounds.
pub open spec fn eare_scenario_bounded(s: EareScenario) -> bool {
    &&& s.nodes@.len() <= MAX_ENTITIES
    &&& s.corruptions@.len() <= MAX_ENTITIES
}

/// A whole EARE replay under the chain order `order`: the chain is walked,
/// detection holds exactly when a violation was recorded (detected
/// immediately, at latency zero), and the metrics are read off the final
/// state.
pub open spec fn spec_eare_simulate(s: EareScenario, order: Seq<usize>) -> EareOutcomeV {
    let v = spec_eare_run(init_eare_state(), eare_ordered_nodes(s, order), s.corruptions@);
    EareOutcomeV {
        detection: v.errors.len() > 0,
        detection_ms: if v.errors.len() > 0 {
            Some(0)
        } else {
            None
        },
        errors: v.errors,
        metrics: EareMetricsV {
            chain_length: s.nodes@.len() as int,
            hash_chain_breaks: v.hash_breaks,
            corruptions_applied: s.corruptions@.len() as int,
            accepted_nodes: v.accepted,
            rejected_nodes: v.rejected,
        },
        notes: v.notes,
    }
}


// ---------------------------------------------------------------------------
// The executable tracker.
// ---------------------------------------------------------------------------

/// The live state of a chain walk.
pub struct EareTracker {
    pub last_hash: Option<String>,
    pub hash_breaks: i64,
    pub accepted: i64,
    pub rejected: i64,
    pub errors: Vec<ViolationCode>,
    pub notes: Vec<EareNote>,
}

impl View for EareTracker {
    type V = EareStateV;

    open spec fn view(&self) -> EareStateV {
        EareStateV {
            last_hash: self.last_hash,
            hash_breaks: self.hash_breaks as int,
            accepted: self.accepted as int,
            rejected: self.rejected as int,
            errors: self.errors@,
            notes: self.notes@,
        }
    }
}

/// Hard cap on every counter: far above what a bounded scenario can
/// accumulate, and far below overflow.
pub open spec fn eare_budget() -> int {
    4_000_000_000_000_000
}

fn corr_key_matches_node(c: &Corruption, node_id: &String) -> (r: bool)
    ensures
        r == (corr_key(*c) == node_id@),
{
    match &c.target_node {
        Some(t) => t.eq(node_id),
        None => {
            let star: String = "*".to_owned();
            node_id.eq(&star)
        },
    }
}

fn corr_key_is_wildcard(c: &Corruption) -> (r: bool)
    ensures
        r == (corr_key(*c) == "*"@),
{
    match &c.target_node {
        Some(t) => {
            let star: String = "*".to_owned();
            t.eq(&star)
        },
        None => true,
    }
}

impl EareTracker {
    /// One corruption's effect; see `spec_apply_corruption`.
    fn apply_corruption(&mut self, c: &Corruption)
        requires
            eare_state_bounded(old(self)@, eare_budget() - 1),
        ensures
            final(self)@ == spec_apply_corruption(old(self)@, *c),
            final(self)@.hash_breaks <= old(self)@.hash_breaks + 1,
            final(self)@.accepted == old(self)@.accepted,
            final(self)@.rejected <= old(self)@.rejected + 1,
            final(self)@.hash_breaks >= old(self)@.hash_breaks,
            final(self)@.rejected >= old(self)@.rejected,
    {
        let ghost v0 = self@;
        match &c.kind {
            CorruptionKind::InvalidSignature => {
                push_err(&mut self.errors, ViolationCode::InvalidSignature);
            },
            CorruptionKind::InvalidPop => {
                push_err(&mut self.errors, ViolationCode::InvalidPop);
            },
            CorruptionKind::HashChainBreak => {
                push_err(&mut self.errors, ViolationCode::HashChainBreak);
                self.hash_breaks = self.hash_breaks + 1;
            },
            CorruptionKind::TruncatedEare => {
                push_err(&mut self.errors, ViolationCode::TruncatedEare);
                self.rejected = self.rejected + 1;
            },
            CorruptionKind::ExtraFields => {
                push_err(&mut self.errors, ViolationCode::ExtraFields);
            },
            CorruptionKind::PayloadTampered => {
                push_err(&mut self.errors, ViolationCode::PayloadTampered);
            },
            CorruptionKind::TamperPayload => {
                push_err(&mut self.errors, ViolationCode::PayloadTampered);
            },
            CorruptionKind::StaleEpochRef => {
                push_err(&mut self.errors, ViolationCode::StaleEpochRef);
            },
            CorruptionKind::Other(name) => {
                self.notes.push(EareNote::UnhandledCorruption(name.clone()));
            },
        }
        proof {
            assert(self@ =~~= spec_apply_corruption(v0, *c));
        }
    }

    /// Apply one bucket of corruptions; see `spec_apply_bucket`.
    fn apply_bucket(&mut self, corrs: &Vec<Corruption>, node_id: &String, wildcard: bool)
        requires
            eare_state_bounded(old(self)@, eare_budget() - corrs@.len()),
            corrs@.len() <= MAX_ENTITIES,
        ensures
            final(self)@ == spec_apply_bucket(
                old(self)@,
                corrs@,
                if wildcard {
                    "*"@
                } else {
                    node_id@
                },
            ),
    {
        let ghost key: Seq<char> = if wildcard {
            "*"@
        } else {
            node_id@
        };
        let ghost v0 = self@;
        let n = corrs.len();
        proof {
            assert(corrs@.skip(0) =~= corrs@);
        }
        for i in 0..n
            invariant
                n == corrs@.len(),
                n <= MAX_ENTITIES,
                key == if wildcard {
                    "*"@
                } else {
                    node_id@
                },
                eare_state_bounded(self@, eare_budget() - (n - i)),
                spec_apply_bucket(self@, corrs@.skip(i as int), key) == spec_apply_bucket(
                    v0,
                    corrs@,
                    key,
                ),
        {
            proof {
                assert(corrs@.skip(i as int)[0] == corrs@[i as int]);
                assert(corrs@.skip(i as int).drop_first() =~= corrs@.skip(i as int + 1));
            }
            let matched = if wildcard {
                corr_key_is_wildcard(&corrs[i])
            } else {
                corr_key_matches_node(&corrs[i], node_id)
            };
            if matched {
                self.apply_corruption(&corrs[i]);
            }
        }
        proof {
            assert(corrs@.skip(n as int) =~= Seq::<Corruption>::empty());
        }
    }

    /// Read one record of the ordered chain; see `spec_eare_node`.
    fn apply_node(&mut self, node: &EareNode, corrs: &Vec<Corruption>)
        requires
            eare_state_bounded(old(self)@, eare_budget() - 1 - 2 * corrs@.len()),
            corrs@.len() <= MAX_ENTITIES,
        ensures
            final(self)@ == spec_eare_node(old(self)@, *node, corrs@),
    {
        let ghost v0 = self@;
        let chain_ok = match &self.last_hash {
            Some(prev) => node.previous_epoch_hash.eq(prev),
            None => true,
        };
        if self.last_hash.is_some() && !chain_ok {
            push_err(&mut self.errors, ViolationCode::HashChainBreak);
            self.hash_breaks = self.hash_breaks + 1;
            self.rejected = self.rejected + 1;
        } else {
            self.accepted = self.accepted + 1;
        }
        self.last_hash = Some(node.eare_hash.clone());
        let ghost v2 = self@;
        proof {
            let sta = match v0.last_hash {
                Some(prev) => if node.previous_epoch_hash@ != prev@ {
                    EareStateV {
                        errors: spec_push_err(v0.errors, ViolationCode::HashChainBreak),
                        hash_breaks: v0.hash_breaks + 1,
                        rejected: v0.rejected + 1,
                        ..v0
                    }
                } else {
                    EareStateV { accepted: v0.accepted + 1, ..v0 }
                },
                None => EareStateV { accepted: v0.accepted + 1, ..v0 },
            };
            assert(v2 =~~= (EareStateV { last_hash: Some(node.eare_hash), ..sta }));
        }
        proof {
            lemma_bucket_bounded(v2, corrs@, node.node_id@, eare_budget() - 2 * corrs@.len());
        }
        self.apply_bucket(corrs, &node.node_id, false);
        proof {
            lemma_bucket_bounded(
                spec_apply_bucket(v2, corrs@, node.node_id@),
                corrs@,
                "*"@,
                eare_budget() - corrs@.len(),
            );
        }
        self.apply_bucket(corrs, &node.node_id, true);
        proof {
            assert(self@ =~~= spec_eare_node(v0, *node, corrs@));
        }
    }
}

/// Whether a corrupted-record scenario's sizes are within the engine's
/// machine limits, so that `simulate` accepts it; see
/// `eare_scenario_bounded`.
pub fn eare_scenario_within_bounds(s: &EareScenario) -> (b: bool)
    ensures
        b == eare_scenario_bounded(*s),
{
    s.nodes.len() <= MAX_ENTITIES && s.corruptions.len() <= MAX_ENTITIES
}

/// Walk one corrupted-record scenario: order the chain by epoch id
/// (declaration order breaking ties), hold each record against its
/// predecessor, apply the injected corruptions, and report. The result is
/// exactly the mathematical walk `spec_eare_simulate` under the chain's
/// (unique) order.
pub fn simulate(s: &EareScenario) -> (r: EareOutcome)
    requires
        eare_scenario_bounded(*s),
    ensures
        exists|order: Seq<usize>|
            #![auto]
            is_replay_order(eare_epochs(*s), order) && r@ == spec_eare_simulate(*s, order),
{
    let n = s.nodes.len();
    let mut epochs: Vec<i64> = Vec::new();
    proof {
        assert(epochs@ =~= eare_epochs(*s).take(0));
    }
    for i in 0..n
        invariant
            n == s.nodes@.len(),
            epochs@ == eare_epochs(*s).take(i as int),
    {
        epochs.push(s.nodes[i].epoch_id);
        proof {
            assert(epochs@ =~= eare_epochs(*s).take(i as int + 1));
        }
    }
    proof {
        assert(eare_epochs(*s).take(n as int) =~= eare_epochs(*s));
    }
    let order = schedule(&epochs);
    let ghost nodes_sorted = eare_ordered_nodes(*s, order@);
    let mut tracker = EareTracker {
        last_hash: None,
        hash_breaks: 0,
        accepted: 0,
        rejected: 0,
        errors: Vec::new(),
        notes: Vec::new(),
    };
    proof {
        assert(tracker@ =~~= init_eare_state());
        assert(nodes_sorted.take(0) =~= Seq::<EareNode>::empty());
    }
    let m = order.len();
    for k in 0..m
        invariant
            eare_scenario_bounded(*s),
            m == n == s.nodes@.len(),
            order@.len() == m,
            is_replay_order(eare_epochs(*s), order@),
            nodes_sorted == eare_ordered_nodes(*s, order@),
            nodes_sorted.len() == m,
            tracker@ == spec_eare_run(init_eare_state(), nodes_sorted.take(k as int), s.corruptions@),
    {
        let idx = order[k];
        proof {
            assert(order@[k as int] < s.nodes@.len());
            assert(nodes_sorted[k as int] == s.nodes@[idx as int]);
            lemma_eare_run_bounded(
                init_eare_state(),
                nodes_sorted.take(k as int),
                s.corruptions@,
                0,
            );
            assert((k as int) * (1 + 2 * (s.corruptions@.len() as int)) + 1 + 2 * (
            s.corruptions@.len() as int) <= 4_000_000_000_000_000) by (nonlinear_arith)
                requires
                    0 <= k as int <= 1_000_000,
                    0 <= s.corruptions@.len() as int <= 1_000_000,
            ;
        }
        tracker.apply_node(&s.nodes[idx], &s.corruptions);
        proof {
            lemma_eare_run_snoc(init_eare_state(), nodes_sorted.take(k as int + 1), s.corruptions@);
            assert(nodes_sorted.take(k as int + 1).drop_last() =~= nodes_sorted.take(k as int));
            assert(nodes_sorted.take(k as int + 1).last() == nodes_sorted[k as int]);
        }
    }
    proof {
        assert(nodes_sorted.take(m as int) =~= nodes_sorted);
    }
    let detection = tracker.errors.len() > 0;
    let r = EareOutcome {
        detection,
        detection_ms: if detection {
            Some(0)
        } else {
            None
        },
        errors: tracker.errors,
        metrics: EareMetrics {
            chain_length: n as i64,
            hash_chain_breaks: tracker.hash_breaks,
            corruptions_applied: s.corruptions.len() as i64,
            accepted_nodes: tracker.accepted,
            rejected_nodes: tracker.rejected,
        },
        notes: tracker.notes,
    };
    proof {
        assert(r@ =~~= spec_eare_simulate(*s, order@));
    }
    r
}

/// One named reason an EARE scenario failed its expectations.
#[derive(Clone, Copy, Debug, PartialEq, Eq, Structural)]
pub enum EareFailure {
    DetectionMismatch,
    MissingDetectionMs,
    DetectionSla,
    UnexpectedDetectionMs,
    MissingExpectedErrors,
    PartialAcceptNotAllowed,
    ResidualDivergence,
}

impl EareFailure {
    /// The wire name of the reason, as it appears in result files.
    pub fn as_str(&self) -> (r: &'static str)
        ensures
            r@ == self.name(),
    {
        proof {
            reveal_strlit("detection_mismatch");
            reveal_strlit("missing_detection_ms");
            reveal_strlit("detection_sla");
            reveal_strlit("unexpected_detection_ms");
            reveal_strlit("missing_expected_errors");
            reveal_strlit("partial_accept_not_allowed");
            reveal_strlit("residual_divergence");
        }
        match self {
            EareFailure::DetectionMismatch => "detection_mismatch",
            EareFailure::MissingDetectionMs => "missing_detection_ms",
            EareFailure::DetectionSla => "detection_sla",
            EareFailure::UnexpectedDetectionMs => "unexpected_detection_ms",
            EareFailure::MissingExpectedErrors => "missing_expected_errors",
            EareFailure::PartialAcceptNotAllowed => "partial_accept_not_allowed",
            EareFailure::ResidualDivergence => "residual_divergence",
        }
    }

    /// The wire name as a mathematical character sequence.
    pub open spec fn name(self) -> Seq<char> {
        match self {
            EareFailure::DetectionMismatch => "detection_mismatch"@,
            EareFailure::MissingDetectionMs => "missing_detection_ms"@,
            EareFailure::DetectionSla => "detection_sla"@,
            EareFailure::UnexpectedDetectionMs => "unexpected_detection_ms"@,
            EareFailure::MissingExpectedErrors => "missing_expected_errors"@,
            EareFailure::PartialAcceptNotAllowed => "partial_accept_not_allowed"@,
            EareFailure::ResidualDivergence => "residual_divergence"@,
        }
    }
}

/// A required violation code the walk never produced.
pub open spec fn eare_missing_errors(exp_codes: Seq<ViolationCode>, errors: Seq<ViolationCode>) -> bool {
    exists|i: int| 0 <= i < exp_codes.len() && !errors.contains(#[trigger] exp_codes[i])
}

/// Every failing check of an EARE outcome against the scenario's
/// expectations, in a stable order.
pub open spec fn spec_eare_eval(exp: EareExpectations, res: EareOutcomeV) -> Seq<EareFailure> {
    let f1: Seq<EareFailure> = if res.detection != exp.should_detect {
        seq![EareFailure::DetectionMismatch]
    } else {
        Seq::empty()
    };
    let f2 = f1 + if exp.should_detect {
        match res.detection_ms {
            None => seq![EareFailure::MissingDetectionMs],
            Some(ms) => if exp.max_detection_ms > 0 && ms > exp.max_detection_ms {
                seq![EareFailure::DetectionSla]
            } else {
                Seq::empty()
            },
        }
    } else {
        match res.detection_ms {
            Some(ms) => if ms != 0 {
                seq![EareFailure::UnexpectedDetectionMs]
            } else {
                Seq::empty()
            },
            None => Seq::empty(),
        }
    };
    let f3 = f2 + if eare_missing_errors(exp.expected_errors@, res.errors) {
        seq![EareFailure::MissingExpectedErrors]
    } else {
        Seq::<EareFailure>::empty()
    };
    let f4 = f3 + if !exp.allow_partial_accept && res.metrics.rejected_nodes > 0 {
        seq![EareFailure::PartialAcceptNotAllowed]
    } else {
        Seq::<EareFailure>::empty()
    };
    f4 + if !exp.residual_divergence_allowed && res.metrics.hash_chain_breaks > 0 {
        seq![EareFailure::ResidualDivergence]
    } else {
        Seq::<EareFailure>::empty()
    }
}

/// Evaluate an EARE outcome against the scenario's expectations: the
/// status is `Pass` exactly when no check fails, and the failure list is
/// exactly `spec_eare_eval` of the outcome.
#[verifier::rlimit(60)]
pub fn evaluate(exp: &EareExpectations, res: &EareOutcome) -> (r: (Status, Vec<EareFailure>))
    ensures
        r.1@ == spec_eare_eval(*exp, res@),
        r.0 == (if spec_eare_eval(*exp, res@).len() == 0 {
            Status::Pass
        } else {
            Status::Fail
        }),
{
    let mut failures: Vec<EareFailure> = Vec::new();
    if res.detection != exp.should_detect {
        failures.push(EareFailure::DetectionMismatch);
    }
    if exp.should_detect {
        match res.detection_ms {
            None => {
                failures.push(EareFailure::MissingDetectionMs);
            },
            Some(ms) => {
                if exp.max_detection_ms > 0 && ms > exp.max_detection_ms {
                    failures.push(EareFailure::DetectionSla);
                }
            },
        }
    } else {
        if let Some(ms) = res.detection_ms {
            if ms != 0 {
                failures.push(EareFailure::UnexpectedDetectionMs);
            }
        }
    }
    let ghost g2 = spec_eare_eval(*exp, res@);
    let nc = exp.expected_errors.len();
    let mut missing = false;
    for i in 0..nc
        invariant
            nc == exp.expected_errors@.len(),
            missing == exists|j: int|
                0 <= j < i && !res.errors@.contains(#[trigger] exp.expected_errors@[j]),
            failures@.len() <= 2,
    {
        if !contains(&res.errors, exp.expected_errors[i]) {
            missing = true;
        }
    }
    if missing {
        failures.push(EareFailure::MissingExpectedErrors);
    }
    if !exp.allow_partial_accept && res.metrics.rejected_nodes > 0 {
        failures.push(EareFailure::PartialAcceptNotAllowed);
    }
    if !exp.residual_divergence_allowed && res.metrics.hash_chain_breaks > 0 {
        failures.push(EareFailure::ResidualDivergence);
    }
    proof {
        assert(failures@ =~= spec_eare_eval(*exp, res@));
    }
    let status = if failures.len() == 0 {
        Status::Pass
    } else {
        Status::Fail
    };
    (status, failures)
}

} // verus!
