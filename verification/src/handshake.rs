//! Handshake flow material and derivation checks.
//!
//! The handshake-complete message commits to a hash of the canonical
//! encoding of the response and to a session id derived from that hash.
//! `validate_handshake_derivation` re-derives both from the canonical bytes
//! and holds them against the declared values. Flow generation builds a
//! three-step synthetic handshake from fresh random material.

use vstd::prelude::*;

use base64::Engine;
use hkdf::Hkdf;
use rand::Rng;
use sha2::Digest;
use sha2::Sha256;

verus! {

/// The SHA-256 digest of a byte sequence; a function of the bytes alone.
pub uninterp spec fn sha256_of(data: Seq<u8>) -> Seq<u8>;

/// Relies on sha2's `Sha256::digest`; its output is always 32 bytes.
#[verifier::external_body]
fn sha256(data: &Vec<u8>) -> (r: Vec<u8>)
    ensures
        r@ == sha256_of(data@),
        r@.len() == 32,
{
    Sha256::digest(data.as_slice()).to_vec()
}

/// The HKDF-SHA-256 output keying material for the given input keying
/// material, info text and length; a function of the arguments alone.
pub uninterp spec fn hkdf_sha256_okm(ikm: Seq<u8>, info: Seq<u8>, n: nat) -> Seq<u8>;

/// Relies on hkdf's `Hkdf::<Sha256>::new(None, ikm)` and `expand`: the
/// expansion succeeds exactly when at most 255 hash lengths (8160 bytes)
/// are requested, and yields `n` bytes of output keying material.
#[verifier::external_body]
fn hkdf_sha256_expand(ikm: &Vec<u8>, info: &Vec<u8>, n: usize) -> (r: Option<Vec<u8>>)
    ensures
        r is Some <==> n <= 8160,
        r matches Some(okm) ==> okm@ == hkdf_sha256_okm(ikm@, info@, n as nat) && okm@.len() == n,
{
    let hk = Hkdf::<Sha256>::new(None, ikm.as_slice());
    let mut okm = vec![0u8; n];
    match hk.expand(info.as_slice(), &mut okm) {
        Ok(()) => Some(okm),
        Err(_) => None,
    }
}

/// The standard base64 encoding of a byte sequence; a function of the
/// bytes alone.
pub uninterp spec fn b64_encoded(b: Seq<u8>) -> Seq<char>;

/// Relies on base64's `STANDARD.encode`.
#[verifier::external_body]
fn b64_encode(b: &Vec<u8>) -> (r: String)
    ensures
        r@ == b64_encoded(b@),
{
    base64::engine::general_purpose::STANDARD.encode(b.as_slice())
}

/// Relies on rand's thread-local generator `rng` and `Rng::fill_bytes`;
/// nothing is promised of the bytes beyond their count. The generator
/// aborts the process if the operating system's randomness source fails —
/// an environment condition no input can cause.
#[verifier::external_body]
fn random_bytes(n: usize) -> (r: Vec<u8>)
    ensures
        r@.len() == n,
{
    let mut bytes = vec![0u8; n];
    rand::rng().fill_bytes(&mut bytes);
    bytes
}

/// A fresh base64 text encoding `size` random bytes.
pub fn generate_random_base64(size: usize) -> (r: String)
    ensures
        encodes_material(r, size as int),
{
    let bytes = random_bytes(size);
    let r = b64_encode(&bytes);
    proof {
        assert(bytes@.len() == size && r@ == b64_encoded(bytes@));
    }
    r
}

/// The info text of the session-id derivation, as bytes.
pub open spec fn session_info() -> Seq<u8> {
    "FoxWhisper-SessionId"@.map_values(|c: char| c as u8)
}

/// The info text of the session-id derivation.
fn session_info_bytes() -> (v: Vec<u8>)
    ensures
        v@ == session_info(),
{
    proof {
        reveal_strlit("FoxWhisper-SessionId");
    }
    let mut v: Vec<u8> = Vec::new();
    v.push(0x46);
    v.push(0x6f);
    v.push(0x78);
    v.push(0x57);
    v.push(0x68);
    v.push(0x69);
    v.push(0x73);
    v.push(0x70);
    v.push(0x65);
    v.push(0x72);
    v.push(0x2d);
    v.push(0x53);
    v.push(0x65);
    v.push(0x73);
    v.push(0x73);
    v.push(0x69);
    v.push(0x6f);
    v.push(0x6e);
    v.push(0x49);
    v.push(0x64);
    proof {
        assert(v@ =~= session_info());
    }
    v
}

/// Why a handshake derivation check failed.
#[derive(Clone, Copy, Debug, PartialEq, Eq, Structural)]
pub enum HandshakeError {
    /// The declared handshake hash differs from the derived one.
    HashMismatch,
    /// The declared session id differs from the derived one.
    SessionMismatch,
}

/// The base64 handshake hash derived from the response's canonical bytes.
pub open spec fn derived_hash(resp_canonical: Seq<u8>) -> Seq<char> {
    b64_encoded(sha256_of(resp_canonical))
}

/// The base64 session id derived from the response's canonical bytes.
pub open spec fn derived_session(resp_canonical: Seq<u8>) -> Seq<char> {
    b64_encoded(hkdf_sha256_okm(sha256_of(resp_canonical), session_info(), 32))
}

/// Re-derive the handshake hash and session id from the canonical bytes of
/// the response message and hold them against the declared values. The
/// check passes exactly when both derived texts read as declared; a hash
/// mismatch is reported before a session mismatch.
pub fn validate_handshake_derivation(
    resp_canonical: &Vec<u8>,
    expected_hash: &str,
    expected_session: &str,
) -> (r: Result<(), HandshakeError>)
    ensures
        r is Ok <==> derived_hash(resp_canonical@) == expected_hash@ && derived_session(
            resp_canonical@,
        ) == expected_session@,
        r == Err::<(), HandshakeError>(HandshakeError::HashMismatch) <==> derived_hash(
            resp_canonical@,
        ) != expected_hash@,
        r == Err::<(), HandshakeError>(HandshakeError::SessionMismatch) <==> derived_hash(
            resp_canonical@,
        ) == expected_hash@ && derived_session(resp_canonical@) != expected_session@,
{
    let hash = sha256(resp_canonical);
    let handshake_hash = b64_encode(&hash);
    if !handshake_hash.eq(&expected_hash.to_owned()) {
        return Err(HandshakeError::HashMismatch);
    }
    let info = session_info_bytes();
    let okm = match hkdf_sha256_expand(&hash, &info, 32) {
        Some(okm) => okm,
        None => {
            proof {
                assert(false);
            }
            return Err(HandshakeError::HashMismatch);
        },
    };
    let session_id = b64_encode(&okm);
    if !session_id.eq(&expected_session.to_owned()) {
        return Err(HandshakeError::SessionMismatch);
    }
    Ok(())
}

/// One handshake message, with the fields its type carries.
pub struct HandshakeMessage {
    pub message_type: String,
    pub version: i32,
    pub client_id: Option<String>,
    pub server_id: Option<String>,
    pub session_id: Option<String>,
    pub x25519_public_key: String,
    pub kyber_public_key: Option<String>,
    pub kyber_ciphertext: Option<String>,
    pub handshake_hash: Option<String>,
    pub timestamp: i64,
    pub nonce: Option<String>,
}

/// One step of a handshake flow.
pub struct HandshakeStep {
    pub step: i32,
    pub step_type: String,
    pub from: String,
    pub to: String,
    pub message: HandshakeMessage,
    pub expected_response: String,
}

/// A complete handshake flow.
pub struct HandshakeFlow {
    pub description: String,
    pub participants: Vec<String>,
    pub steps: Vec<HandshakeStep>,
}

/// The text encodes exactly `n` bytes of material under standard base64.
pub open spec fn encodes_material(s: String, n: int) -> bool {
    exists|b: Seq<u8>| b.len() == n && s@ == b64_encoded(b)
}

/// An optional text that is present and encodes exactly `n` bytes of
/// material.
pub open spec fn opt_encodes_material(o: Option<String>, n: int) -> bool {
    o matches Some(s) && encodes_material(s, n)
}

/// Build a complete synthetic handshake flow from fresh random material:
/// an init from the client, a response from the server, and a completion
/// from the client, at strictly increasing timestamps. Everything
/// structural is pinned; the identities and key material are random, but
/// each field encodes exactly the byte size its message type declares.
pub fn generate_handshake_flow() -> (flow: HandshakeFlow)
    ensures
        flow.steps@.len() == 3,
        flow.participants@.len() == 2,
        flow.steps@[0].step == 1 && flow.steps@[1].step == 2 && flow.steps@[2].step == 3,
        flow.steps@[0].step_type@ == "HANDSHAKE_INIT"@,
        flow.steps@[1].step_type@ == "HANDSHAKE_RESPONSE"@,
        flow.steps@[2].step_type@ == "HANDSHAKE_COMPLETE"@,
        flow.steps@[0].message.message_type@ == "HANDSHAKE_INIT"@,
        flow.steps@[1].message.message_type@ == "HANDSHAKE_RESPONSE"@,
        flow.steps@[2].message.message_type@ == "HANDSHAKE_COMPLETE"@,
        flow.steps@[0].message.version == 1 && flow.steps@[1].message.version == 1
            && flow.steps@[2].message.version == 1,
        flow.steps@[0].message.timestamp < flow.steps@[1].message.timestamp < flow.steps@[2].message.timestamp,
        opt_encodes_material(flow.steps@[0].message.client_id, 32),
        encodes_material(flow.steps@[0].message.x25519_public_key, 32),
        opt_encodes_material(flow.steps@[0].message.kyber_public_key, 1568),
        opt_encodes_material(flow.steps@[0].message.nonce, 16),
        opt_encodes_material(flow.steps@[1].message.server_id, 32),
        encodes_material(flow.steps@[1].message.x25519_public_key, 32),
        opt_encodes_material(flow.steps@[1].message.kyber_ciphertext, 1568),
        opt_encodes_material(flow.steps@[1].message.nonce, 16),
        opt_encodes_material(flow.steps@[2].message.session_id, 32),
        opt_encodes_material(flow.steps@[2].message.handshake_hash, 32),
{
    let client_id = generate_random_base64(32);
    let server_id = generate_random_base64(32);
    let client_x25519_pub = generate_random_base64(32);
    let server_x25519_pub = generate_random_base64(32);
    let client_kyber_pub = generate_random_base64(1568);
    let server_kyber_cipher = generate_random_base64(1568);
    let client_nonce = generate_random_base64(16);
    let server_nonce = generate_random_base64(16);
    let session_id = generate_random_base64(32);
    let handshake_hash = generate_random_base64(32);

    let mut participants: Vec<String> = Vec::new();
    participants.push("client".to_owned());
    participants.push("server".to_owned());

    let mut steps: Vec<HandshakeStep> = Vec::new();
    steps.push(
        HandshakeStep {
            step: 1,
            step_type: "HANDSHAKE_INIT".to_owned(),
            from: "client".to_owned(),
            to: "server".to_owned(),
            message: HandshakeMessage {
                message_type: "HANDSHAKE_INIT".to_owned(),
                version: 1,
                client_id: Some(client_id),
                server_id: None,
                session_id: None,
                x25519_public_key: client_x25519_pub,
                kyber_public_key: Some(client_kyber_pub),
                kyber_ciphertext: None,
                handshake_hash: None,
                timestamp: 1_701_763_200_000,
                nonce: Some(client_nonce),
            },
            expected_response: "HANDSHAKE_RESPONSE".to_owned(),
        },
    );
    steps.push(
        HandshakeStep {
            step: 2,
            step_type: "HANDSHAKE_RESPONSE".to_owned(),
            from: "server".to_owned(),
            to: "client".to_owned(),
            message: HandshakeMessage {
                message_type: "HANDSHAKE_RESPONSE".to_owned(),
                version: 1,
                client_id: None,
                server_id: Some(server_id),
                session_id: None,
                x25519_public_key: server_x25519_pub,
                kyber_public_key: None,
                kyber_ciphertext: Some(server_kyber_cipher),
                handshake_hash: None,
                timestamp: 1_701_763_201_000,
                nonce: Some(server_nonce),
            },
            expected_response: "HANDSHAKE_COMPLETE".to_owned(),
        },
    );
    steps.push(
        HandshakeStep {
            step: 3,
            step_type: "HANDSHAKE_COMPLETE".to_owned(),
            from: "client".to_owned(),
            to: "server".to_owned(),
            message: HandshakeMessage {
                message_type: "HANDSHAKE_COMPLETE".to_owned(),
                version: 1,
                client_id: None,
                server_id: None,
                session_id: Some(session_id),
                x25519_public_key: "".to_owned(),
                kyber_public_key: None,
                kyber_ciphertext: None,
                handshake_hash: Some(handshake_hash),
                timestamp: 1_701_763_202_000,
                nonce: None,
            },
            expected_response: "ENCRYPTED_MESSAGE".to_owned(),
        },
    );
    HandshakeFlow {
        description: "Complete handshake flow".to_owned(),
        participants,
        steps,
    }
}

} // verus!
