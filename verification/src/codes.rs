//! Violation codes and the append-only, deduplicated violation set.
//!
//! A protocol violation is an expected adversarial outcome, recorded as a
//! code and fed into expectation evaluation; it is never an error that stops
//! a replay. The set keeps the first-seen position of each code, which the
//! metrics layer uses to compute the time of first detection.

use vstd::prelude::*;

verus! {

/// One detectable protocol violation.
#[derive(Clone, Copy, Debug, PartialEq, Eq, Structural)]
pub enum ViolationCode {
    UnknownMessage,
    DuplicateDelivery,
    ReplayInjected,
    RollbackApplied,
    ClockSkewViolation,
    DivergenceDetected,
    MessageLoss,
    OutOfOrder,
    EpochForkDetected,
    HashChainBreak,
    InvalidSignature,
    InvalidPop,
    TruncatedEare,
    ExtraFields,
    PayloadTampered,
    StaleEpochRef,
    Impersonation,
    UnauthorizedSubscribe,
    ReplayTrack,
    DuplicateRoute,
    SimulcastSpoof,
    BitrateAbuse,
    StaleKeyReuse,
    KeyLeakAttempt,
}

impl ViolationCode {
    /// The wire name of the code, as it appears in corpora and result files.
    pub fn as_str(&self) -> (r: &'static str)
        ensures
            r@ == self.name(),
    {
        proof {
            reveal_strlit("UNKNOWN_MESSAGE");
            reveal_strlit("DUPLICATE_DELIVERY");
            reveal_strlit("REPLAY_INJECTED");
            reveal_strlit("ROLLBACK_APPLIED");
            reveal_strlit("CLOCK_SKEW_VIOLATION");
            reveal_strlit("DIVERGENCE_DETECTED");
            reveal_strlit("MESSAGE_LOSS");
            reveal_strlit("OUT_OF_ORDER");
            reveal_strlit("EPOCH_FORK_DETECTED");
            reveal_strlit("HASH_CHAIN_BREAK");
            reveal_strlit("INVALID_SIGNATURE");
            reveal_strlit("INVALID_POP");
            reveal_strlit("TRUNCATED_EARE");
            reveal_strlit("EXTRA_FIELDS");
            reveal_strlit("PAYLOAD_TAMPERED");
            reveal_strlit("STALE_EPOCH_REF");
            reveal_strlit("IMPERSONATION");
            reveal_strlit("UNAUTHORIZED_SUBSCRIBE");
            reveal_strlit("REPLAY_TRACK");
            reveal_strlit("DUPLICATE_ROUTE");
            reveal_strlit("SIMULCAST_SPOOF");
            reveal_strlit("BITRATE_ABUSE");
            reveal_strlit("STALE_KEY_REUSE");
            reveal_strlit("KEY_LEAK_ATTEMPT");
        }
        match self {
            ViolationCode::UnknownMessage => "UNKNOWN_MESSAGE",
            ViolationCode::DuplicateDelivery => "DUPLICATE_DELIVERY",
            ViolationCode::ReplayInjected => "REPLAY_INJECTED",
            ViolationCode::RollbackApplied => "ROLLBACK_APPLIED",
            ViolationCode::ClockSkewViolation => "CLOCK_SKEW_VIOLATION",
            ViolationCode::DivergenceDetected => "DIVERGENCE_DETECTED",
            ViolationCode::MessageLoss => "MESSAGE_LOSS",
            ViolationCode::OutOfOrder => "OUT_OF_ORDER",
            ViolationCode::EpochForkDetected => "EPOCH_FORK_DETECTED",
            ViolationCode::HashChainBreak => "HASH_CHAIN_BREAK",
            ViolationCode::InvalidSignature => "INVALID_SIGNATURE",
            ViolationCode::InvalidPop => "INVALID_POP",
            ViolationCode::TruncatedEare => "TRUNCATED_EARE",
            ViolationCode::ExtraFields => "EXTRA_FIELDS",
            ViolationCode::PayloadTampered => "PAYLOAD_TAMPERED",
            ViolationCode::StaleEpochRef => "STALE_EPOCH_REF",
            ViolationCode::Impersonation => "IMPERSONATION",
            ViolationCode::UnauthorizedSubscribe => "UNAUTHORIZED_SUBSCRIBE",
            ViolationCode::ReplayTrack => "REPLAY_TRACK",
            ViolationCode::DuplicateRoute => "DUPLICATE_ROUTE",
            ViolationCode::SimulcastSpoof => "SIMULCAST_SPOOF",
            ViolationCode::BitrateAbuse => "BITRATE_ABUSE",
            ViolationCode::StaleKeyReuse => "STALE_KEY_REUSE",
            ViolationCode::KeyLeakAttempt => "KEY_LEAK_ATTEMPT",
        }
    }

    /// The wire name as a mathematical character sequence.
    pub open spec fn name(self) -> Seq<char> {
        match self {
            ViolationCode::UnknownMessage => "UNKNOWN_MESSAGE"@,
            ViolationCode::DuplicateDelivery => "DUPLICATE_DELIVERY"@,
            ViolationCode::ReplayInjected => "REPLAY_INJECTED"@,
            ViolationCode::RollbackApplied => "ROLLBACK_APPLIED"@,
            ViolationCode::ClockSkewViolation => "CLOCK_SKEW_VIOLATION"@,
            ViolationCode::DivergenceDetected => "DIVERGENCE_DETECTED"@,
            ViolationCode::MessageLoss => "MESSAGE_LOSS"@,
            ViolationCode::OutOfOrder => "OUT_OF_ORDER"@,
            ViolationCode::EpochForkDetected => "EPOCH_FORK_DETECTED"@,
            ViolationCode::HashChainBreak => "HASH_CHAIN_BREAK"@,
            ViolationCode::InvalidSignature => "INVALID_SIGNATURE"@,
            ViolationCode::InvalidPop => "INVALID_POP"@,
            ViolationCode::TruncatedEare => "TRUNCATED_EARE"@,
            ViolationCode::ExtraFields => "EXTRA_FIELDS"@,
            ViolationCode::PayloadTampered => "PAYLOAD_TAMPERED"@,
            ViolationCode::StaleEpochRef => "STALE_EPOCH_REF"@,
            ViolationCode::Impersonation => "IMPERSONATION"@,
            ViolationCode::UnauthorizedSubscribe => "UNAUTHORIZED_SUBSCRIBE"@,
            ViolationCode::ReplayTrack => "REPLAY_TRACK"@,
            ViolationCode::DuplicateRoute => "DUPLICATE_ROUTE"@,
            ViolationCode::SimulcastSpoof => "SIMULCAST_SPOOF"@,
            ViolationCode::BitrateAbuse => "BITRATE_ABUSE"@,
            ViolationCode::StaleKeyReuse => "STALE_KEY_REUSE"@,
            ViolationCode::KeyLeakAttempt => "KEY_LEAK_ATTEMPT"@,
        }
    }
}

/// Whether `list` already holds `item`.
pub fn contains(list: &Vec<ViolationCode>, item: ViolationCode) -> (r: bool)
    ensures
        r == list@.contains(item),
{
    let n = list.len();
    for i in 0..n
        invariant
            n == list@.len(),
            forall|j: int| 0 <= j < i ==> list@[j] != item,
    {
        if list[i] == item {
            return true;
        }
    }
    false
}

/// The violation set after appending `code`: unchanged if the code is
/// already recorded, otherwise the code goes to the end, so the first-seen
/// position of every code is preserved.
pub open spec fn spec_push_err(errors: Seq<ViolationCode>, code: ViolationCode) -> Seq<ViolationCode> {
    if errors.contains(code) {
        errors
    } else {
        errors.push(code)
    }
}

/// Record a violation code, keeping the set deduplicated and append-only.
pub fn push_err(errors: &mut Vec<ViolationCode>, code: ViolationCode)
    ensures
        final(errors)@ == spec_push_err(old(errors)@, code),
{
    if !contains(errors, code) {
        errors.push(code);
    }
}


/// A scenario's verdict status.
#[derive(Clone, Copy, Debug, PartialEq, Eq, Structural)]
pub enum Status {
    Pass,
    Fail,
}

impl Status {
    /// The wire name of the status.
    pub fn as_str(&self) -> (r: &'static str)
        ensures
            self is Pass ==> r@ == "pass"@,
            self is Fail ==> r@ == "fail"@,
    {
        match self {
            Status::Pass => "pass",
            Status::Fail => "fail",
        }
    }
}

} // verus!
