//! Malformed-packet seed evaluation.
//!
//! A fuzz seed mutates a base handshake vector and declares whether the
//! protocol should still accept it. The acceptance decision — required
//! fields, minimum decoded key sizes, a sane timestamp — lives here; the
//! mutation of the loose JSON vector happens at the corpus edge.

use vstd::prelude::*;

use base64::Engine;

use crate::replay::ReplayValue;
use crate::replay::rv_find;
use crate::replay::rv_index;

verus! {

/// The bytes that strict standard base64 decoding yields for a text, or
/// nothing when the text is not valid standard base64. The result depends
/// on the characters alone.
pub uninterp spec fn b64_std_decoded(s: Seq<char>) -> Option<Seq<u8>>;

/// Relies on base64's `STANDARD.decode` alone; the fuzz checks accept no
/// other alphabet.
#[verifier::external_body]
fn decode_base64_standard(s: &str) -> (r: Option<Vec<u8>>)
    ensures
        r matches Some(b) ==> b64_std_decoded(s@) matches Some(bs) && b@ == bs,
        r is None ==> b64_std_decoded(s@) is None,
{
    match base64::engine::general_purpose::STANDARD.decode(s) {
        Ok(b) => Some(b),
        Err(_) => None,
    }
}

/// Whether the named field holds text that decodes, under strict standard
/// base64, to at least `min` bytes.
pub open spec fn spec_base64_len(
    data: Seq<(String, ReplayValue)>,
    name: Seq<char>,
    min: int,
) -> bool {
    let i = rv_find(data, name);
    &&& i >= 0
    &&& match data[i].1 {
        ReplayValue::Str(s) => match b64_std_decoded(s@) {
            Some(b) => b.len() >= min,
            None => false,
        },
        _ => false,
    }
}

/// Check one base64 field's minimum decoded size; see `spec_base64_len`.
pub fn base64_len(data: &Vec<(String, ReplayValue)>, field: &str, min: u64) -> (r: bool)
    ensures
        r == spec_base64_len(data@, field@, min as int),
{
    match rv_index(data, field) {
        None => false,
        Some(i) => match &data[i].1 {
            ReplayValue::Str(s) => match decode_base64_standard(s.as_str()) {
                Some(b) => b.len() as u64 >= min,
                None => false,
            },
            _ => false,
        },
    }
}

/// Whether every named field is present.
pub open spec fn spec_required_fields(
    data: Seq<(String, ReplayValue)>,
    names: Seq<Seq<char>>,
) -> bool {
    forall|i: int| 0 <= i < names.len() ==> rv_find(data, #[trigger] names[i]) >= 0
}

/// Check that every named field is present; see `spec_required_fields`.
pub fn required_fields(data: &Vec<(String, ReplayValue)>, names: &Vec<&'static str>) -> (r: bool)
    ensures
        r == spec_required_fields(data@, names@.map_values(|f: &str| f@)),
{
    let ghost views = names@.map_values(|f: &str| f@);
    let n = names.len();
    for i in 0..n
        invariant
            n == names@.len() == views.len(),
            views == names@.map_values(|f: &str| f@),
            forall|j: int| 0 <= j < n ==> (#[trigger] names@[j])@ == views[j],
            forall|j: int| 0 <= j < i ==> rv_find(data@, #[trigger] views[j]) >= 0,
    {
        if rv_index(data, names[i]).is_none() {
            proof {
                assert(rv_find(data@, views[i as int]) == -1);
                assert(!spec_required_fields(data@, views));
            }
            return false;
        }
    }
    true
}

/// The latest timestamp a handshake completion may carry.
pub const MAX_HANDSHAKE_TIMESTAMP: i64 = 4_102_444_800_000;

/// Whether a mutated handshake message still passes the acceptance rules
/// of its type: the required fields of the type are present, key material
/// decodes to at least its minimum size, and a completion carries a sane
/// timestamp. An unknown type is never accepted.
pub open spec fn spec_validate_handshake(
    message_type: Seq<char>,
    data: Seq<(String, ReplayValue)>,
) -> bool {
    if message_type == "HANDSHAKE_INIT"@ {
        &&& spec_required_fields(
            data,
            seq!["version"@, "client_id"@, "x25519_public_key"@, "kyber_public_key"@, "nonce"@],
        )
        &&& spec_base64_len(data, "client_id"@, 32)
        &&& spec_base64_len(data, "x25519_public_key"@, 32)
        &&& spec_base64_len(data, "kyber_public_key"@, 32)
        &&& spec_base64_len(data, "nonce"@, 12)
    } else if message_type == "HANDSHAKE_RESPONSE"@ {
        &&& spec_required_fields(
            data,
            seq!["version"@, "server_id"@, "x25519_public_key"@, "kyber_ciphertext"@, "nonce"@],
        )
        &&& spec_base64_len(data, "server_id"@, 32)
        &&& spec_base64_len(data, "x25519_public_key"@, 32)
        &&& spec_base64_len(data, "kyber_ciphertext"@, 32)
        &&& spec_base64_len(data, "nonce"@, 12)
    } else if message_type == "HANDSHAKE_COMPLETE"@ {
        &&& spec_required_fields(data, seq!["timestamp"@])
        &&& (match data[rv_find(data, "timestamp"@)].1 {
            ReplayValue::Num(ts) => 0 <= ts <= MAX_HANDSHAKE_TIMESTAMP,
            _ => false,
        })
    } else {
        false
    }
}

/// Decide whether a mutated handshake message is still accepted; see
/// `spec_validate_handshake`.
pub fn validate_handshake(message_type: &str, data: &Vec<(String, ReplayValue)>) -> (r: bool)
    ensures
        r == spec_validate_handshake(message_type@, data@),
{
    proof {
        reveal_strlit("HANDSHAKE_INIT");
        reveal_strlit("HANDSHAKE_RESPONSE");
        reveal_strlit("HANDSHAKE_COMPLETE");
        reveal_strlit("version");
        reveal_strlit("client_id");
        reveal_strlit("server_id");
        reveal_strlit("x25519_public_key");
        reveal_strlit("kyber_public_key");
        reveal_strlit("kyber_ciphertext");
        reveal_strlit("nonce");
        reveal_strlit("timestamp");
    }
    let mts: String = message_type.to_owned();
    if mts.eq(&"HANDSHAKE_INIT".to_owned()) {
        let mut names: Vec<&'static str> = Vec::new();
        names.push("version");
        names.push("client_id");
        names.push("x25519_public_key");
        names.push("kyber_public_key");
        names.push("nonce");
        proof {
            assert(names@.map_values(|f: &str| f@) =~= seq![
                "version"@,
                "client_id"@,
                "x25519_public_key"@,
                "kyber_public_key"@,
                "nonce"@,
            ]);
        }
        required_fields(data, &names) && base64_len(data, "client_id", 32) && base64_len(
            data,
            "x25519_public_key",
            32,
        ) && base64_len(data, "kyber_public_key", 32) && base64_len(data, "nonce", 12)
    } else if mts.eq(&"HANDSHAKE_RESPONSE".to_owned()) {
        let mut names: Vec<&'static str> = Vec::new();
        names.push("version");
        names.push("server_id");
        names.push("x25519_public_key");
        names.push("kyber_ciphertext");
        names.push("nonce");
        proof {
            assert(names@.map_values(|f: &str| f@) =~= seq![
                "version"@,
                "server_id"@,
                "x25519_public_key"@,
                "kyber_ciphertext"@,
                "nonce"@,
            ]);
        }
        required_fields(data, &names) && base64_len(data, "server_id", 32) && base64_len(
            data,
            "x25519_public_key",
            32,
        ) && base64_len(data, "kyber_ciphertext", 32) && base64_len(data, "nonce", 12)
    } else if mts.eq(&"HANDSHAKE_COMPLETE".to_owned()) {
        let mut names: Vec<&'static str> = Vec::new();
        names.push("timestamp");
        proof {
            assert(names@.map_values(|f: &str| f@) =~= seq!["timestamp"@]);
        }
        if !required_fields(data, &names) {
            return false;
        }
        match rv_index(data, "timestamp") {
            Some(k) => match &data[k].1 {
                ReplayValue::Num(ts) => 0 <= *ts && *ts <= MAX_HANDSHAKE_TIMESTAMP,
                _ => false,
            },
            None => {
                proof {
                    assert(seq!["timestamp"@][0] == "timestamp"@);
                    assert(rv_find(data@, seq!["timestamp"@][0]) >= 0);
                    assert(false);
                }
                false
            },
        }
    } else {
        false
    }
}

/// What a seed declares of its first mutation's outcome.
#[derive(Clone, Copy, Debug, PartialEq, Eq, Structural)]
pub enum MutationOutcome {
    /// The protocol should still accept the mutated message.
    Recover,
    /// The protocol should reject the mutated message.
    Reject,
}

/// How a seed mutates its base vector.
pub enum MutationOp {
    RemoveField,
    SetValue,
    ShuffleMap,
    ExpandBytes,
}

/// One declared mutation.
pub struct Mutation {
    pub op: MutationOp,
    pub field: String,
    pub factor: Option<i64>,
    pub expected_outcome: Option<MutationOutcome>,
}

/// One fuzz seed: a base vector reference and its mutations.
pub struct Seed {
    pub seed_id: String,
    pub message_type: String,
    pub base_vector: String,
    pub mutations: Vec<Mutation>,
}

/// Whether the seed expects the mutated message to still be accepted: only
/// when its first mutation declares a recovery outcome.
pub open spec fn spec_expected_success(seed: Seed) -> bool {
    seed.mutations@.len() > 0 && seed.mutations@[0].expected_outcome == Some(
        MutationOutcome::Recover,
    )
}

/// The acceptance a seed expects; see `spec_expected_success`.
pub fn expected_success(seed: &Seed) -> (r: bool)
    ensures
        r == spec_expected_success(*seed),
{
    if seed.mutations.len() == 0 {
        return false;
    }
    match seed.mutations[0].expected_outcome {
        Some(MutationOutcome::Recover) => true,
        _ => false,
    }
}

/// Evaluate one mutated seed: whether the message, after mutation, is
/// still accepted under its declared type.
pub fn evaluate_seed(seed: &Seed, data: &Vec<(String, ReplayValue)>) -> (r: bool)
    ensures
        r == spec_validate_handshake(seed.message_type@, data@),
{
    validate_handshake(seed.message_type.as_str(), data)
}

} // verus!
