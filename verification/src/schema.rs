//! Handshake message and schema validation.
//!
//! Validates protocol handshake messages, modelled as typed field maps,
//! against per-message-type schemas: required fields, field types, and the
//! exact byte sizes of base64-encoded material.

use vstd::prelude::*;

use base64::Engine;

use crate::text::concat2;
use crate::text::concat3;
use crate::text::dec_str;
use crate::text::u64_to_string;

verus! {

/// The bytes that standard (or, failing that, URL-safe) base64 decoding
/// yields for a text, or nothing when the text is not valid base64 under
/// either alphabet. The result depends on the characters alone.
pub uninterp spec fn b64_decoded(s: Seq<char>) -> Option<Seq<u8>>;

/// Relies on base64's `STANDARD.decode`, falling back to
/// `URL_SAFE.decode`, exactly as the protocol accepts either alphabet.
#[verifier::external_body]
fn decode_base64(s: &str) -> (r: Option<Vec<u8>>)
    ensures
        r matches Some(b) ==> b64_decoded(s@) matches Some(bs) && b@ == bs,
        r is None ==> b64_decoded(s@) is None,
{
    let engine = base64::engine::general_purpose::STANDARD;
    let fallback = base64::engine::general_purpose::URL_SAFE;
    match engine.decode(s).or_else(|_| fallback.decode(s)) {
        Ok(b) => Some(b),
        Err(_) => None,
    }
}

/// A field value as the validators see it: a text, a number, or something
/// else.
pub enum FieldValue {
    Str(String),
    Number,
    OtherKind,
}

/// A message as a typed field map in declaration order.
pub type FieldMap = Vec<(String, FieldValue)>;

/// First index whose field name reads `k`, or -1.
pub open spec fn find_field(m: Seq<(String, FieldValue)>, k: Seq<char>) -> int
    decreases m.len(),
{
    if m.len() == 0 {
        -1
    } else if m[0].0@ == k {
        0
    } else {
        let rest = find_field(m.drop_first(), k);
        if rest == -1 {
            -1
        } else {
            rest + 1
        }
    }
}

/// Whether the map holds a field reading `k`.
pub open spec fn has_field(m: Seq<(String, FieldValue)>, k: Seq<char>) -> bool {
    find_field(m, k) >= 0
}

pub proof fn lemma_find_field(m: Seq<(String, FieldValue)>, k: Seq<char>)
    ensures
        -1 <= find_field(m, k) < m.len(),
        find_field(m, k) == -1 ==> forall|i: int| 0 <= i < m.len() ==> (#[trigger] m[i].0)@ != k,
        find_field(m, k) >= 0 ==> {
            &&& m[find_field(m, k)].0@ == k
            &&& forall|i: int| 0 <= i < find_field(m, k) ==> (#[trigger] m[i].0)@ != k
        },
    decreases m.len(),
{
    if m.len() > 0 && m[0].0@ != k {
        lemma_find_field(m.drop_first(), k);
        assert forall|i: int| 1 <= i < m.len() implies m.drop_first()[i - 1] == m[i] by {}
    }
}

/// Look a field up by name.
pub fn field_index(m: &FieldMap, k: &str) -> (r: Option<usize>)
    ensures
        r matches Some(i) ==> i as int == find_field(m@, k@) && i < m@.len(),
        r is None ==> find_field(m@, k@) == -1,
{
    let ks: String = k.to_owned();
    let n = m.len();
    for i in 0..n
        invariant
            n == m@.len(),
            ks@ == k@,
            forall|j: int| 0 <= j < i ==> (#[trigger] m@[j].0)@ != k@,
    {
        if m[i].0.eq(&ks) {
            proof {
                lemma_find_field(m@, k@);
                if find_field(m@, k@) != i as int {
                    assert(m@[find_field(m@, k@)].0@ == k@);
                }
            }
            return Some(i);
        }
    }
    proof {
        lemma_find_field(m@, k@);
        if find_field(m@, k@) >= 0 {
            assert(m@[find_field(m@, k@)].0@ == k@);
        }
    }
    None
}

/// A handshake message type.
#[derive(Clone, Copy, Debug, PartialEq, Eq, Structural)]
pub enum MessageType {
    HandshakeInit,
    HandshakeResponse,
    HandshakeComplete,
}

impl MessageType {
    /// The message type a wire name denotes, if any.
    pub fn from_str(s: &str) -> (r: Option<MessageType>)
        ensures
            r == spec_message_type(s@),
    {
        proof {
            reveal_strlit("HANDSHAKE_INIT");
            reveal_strlit("HANDSHAKE_RESPONSE");
            reveal_strlit("HANDSHAKE_COMPLETE");
        }
        let ss: String = s.to_owned();
        let init: String = "HANDSHAKE_INIT".to_owned();
        let resp: String = "HANDSHAKE_RESPONSE".to_owned();
        let comp: String = "HANDSHAKE_COMPLETE".to_owned();
        if ss.eq(&init) {
            Some(MessageType::HandshakeInit)
        } else if ss.eq(&resp) {
            Some(MessageType::HandshakeResponse)
        } else if ss.eq(&comp) {
            Some(MessageType::HandshakeComplete)
        } else {
            None
        }
    }

    /// The wire name of the message type.
    pub fn as_str(&self) -> (r: &'static str)
        ensures
            r@ == self.name(),
    {
        match self {
            MessageType::HandshakeInit => "HANDSHAKE_INIT",
            MessageType::HandshakeResponse => "HANDSHAKE_RESPONSE",
            MessageType::HandshakeComplete => "HANDSHAKE_COMPLETE",
        }
    }

    /// The wire name as a mathematical character sequence.
    pub open spec fn name(self) -> Seq<char> {
        match self {
            MessageType::HandshakeInit => "HANDSHAKE_INIT"@,
            MessageType::HandshakeResponse => "HANDSHAKE_RESPONSE"@,
            MessageType::HandshakeComplete => "HANDSHAKE_COMPLETE"@,
        }
    }

    /// The CBOR tag of the message type.
    pub fn tag(&self) -> (t: u32)
        ensures
            t == self.spec_tag(),
    {
        match self {
            MessageType::HandshakeInit => 0xD1,
            MessageType::HandshakeResponse => 0xD2,
            MessageType::HandshakeComplete => 0xD3,
        }
    }

    /// The CBOR tag as a mathematical value.
    pub open spec fn spec_tag(self) -> u32 {
        match self {
            MessageType::HandshakeInit => 0xD1,
            MessageType::HandshakeResponse => 0xD2,
            MessageType::HandshakeComplete => 0xD3,
        }
    }
}

/// The message type a wire name denotes, if any.
pub open spec fn spec_message_type(s: Seq<char>) -> Option<MessageType> {
    if s == "HANDSHAKE_INIT"@ {
        Some(MessageType::HandshakeInit)
    } else if s == "HANDSHAKE_RESPONSE"@ {
        Some(MessageType::HandshakeResponse)
    } else if s == "HANDSHAKE_COMPLETE"@ {
        Some(MessageType::HandshakeComplete)
    } else {
        None
    }
}


/// The sized base64 fields: each name with the exact byte size its decoded
/// material must have.
pub open spec fn b64_size_of(name: Seq<char>) -> Option<int> {
    if name == "client_id"@ || name == "server_id"@ || name == "session_id"@ || name
        == "handshake_hash"@ || name == "x25519_public_key"@ {
        Some(32)
    } else if name == "nonce"@ {
        Some(16)
    } else if name == "kyber_public_key"@ || name == "kyber_ciphertext"@ {
        Some(1568)
    } else {
        None
    }
}

/// The error a base64 field check yields, if any: the field must be text,
/// must decode under either base64 alphabet, and must decode to exactly
/// `expected` bytes.
pub open spec fn spec_b64_field_error(name: Seq<char>, v: FieldValue, expected: int) -> Option<
    Seq<char>,
> {
    match v {
        FieldValue::Str(s) => match b64_decoded(s@) {
            Some(b) => if b.len() == expected {
                None
            } else {
                Some(
                    "Field "@ + name + " wrong size: "@ + dec_str(b.len()) + " != "@ + dec_str(
                        expected as nat,
                    ),
                )
            },
            None => Some("Field "@ + name + " must be valid base64"@),
        },
        _ => Some("Field "@ + name + " must be string"@),
    }
}

/// The error one field of a handshake message yields, if any.
pub open spec fn spec_field_error(name: Seq<char>, v: FieldValue) -> Option<Seq<char>> {
    if name == "type"@ {
        if v is Str {
            None
        } else {
            Some("Field type must be string"@)
        }
    } else if name == "version"@ || name == "timestamp"@ {
        if v is Number {
            None
        } else {
            Some("Field "@ + name + " must be integer"@)
        }
    } else {
        match b64_size_of(name) {
            Some(expected) => spec_b64_field_error(name, v, expected),
            None => Some("Unknown field: "@ + name),
        }
    }
}

/// The required fields of each message type, in check order.
pub open spec fn required_fields_of(mt: MessageType) -> Seq<Seq<char>> {
    match mt {
        MessageType::HandshakeComplete => seq![
            "type"@,
            "version"@,
            "session_id"@,
            "handshake_hash"@,
            "timestamp"@,
        ],
        MessageType::HandshakeInit => seq![
            "type"@,
            "version"@,
            "client_id"@,
            "x25519_public_key"@,
            "kyber_public_key"@,
            "timestamp"@,
            "nonce"@,
        ],
        MessageType::HandshakeResponse => seq![
            "type"@,
            "version"@,
            "server_id"@,
            "x25519_public_key"@,
            "kyber_ciphertext"@,
            "timestamp"@,
            "nonce"@,
        ],
    }
}

/// The missing-field errors: one for each required field the message
/// lacks, in check order.
pub open spec fn spec_missing_errors(
    data: Seq<(String, FieldValue)>,
    required: Seq<Seq<char>>,
) -> Seq<Seq<char>>
    decreases required.len(),
{
    if required.len() == 0 {
        Seq::empty()
    } else {
        (if !has_field(data, required[0]) {
            seq!["Missing required field: "@ + required[0]]
        } else {
            Seq::<Seq<char>>::empty()
        }) + spec_missing_errors(data, required.drop_first())
    }
}

/// The per-field errors of the whole message, in declaration order.
pub open spec fn spec_field_errors(data: Seq<(String, FieldValue)>) -> Seq<Seq<char>>
    decreases data.len(),
{
    if data.len() == 0 {
        Seq::empty()
    } else {
        (match spec_field_error(data[0].0@, data[0].1) {
            Some(e) => seq![e],
            None => Seq::<Seq<char>>::empty(),
        }) + spec_field_errors(data.drop_first())
    }
}

/// The outcome of validating one handshake message.
pub struct ValidationResult {
    pub valid: bool,
    pub errors: Vec<String>,
    pub message_type: Option<String>,
    pub tag: Option<u32>,
    pub test_name: Option<String>,
}

/// Mathematical value of a validation outcome.
#[verifier::ext_equal]
pub ghost struct ValidationResultV {
    pub valid: bool,
    pub errors: Seq<Seq<char>>,
    pub message_type: Option<Seq<char>>,
    pub tag: Option<u32>,
    pub test_name: Option<Seq<char>>,
}

/// The text of an optional string.
pub open spec fn opt_str_view(o: Option<String>) -> Option<Seq<char>> {
    match o {
        Some(s) => Some(s@),
        None => None,
    }
}

impl View for ValidationResult {
    type V = ValidationResultV;

    open spec fn view(&self) -> ValidationResultV {
        ValidationResultV {
            valid: self.valid,
            errors: self.errors@.map_values(|e: String| e@),
            message_type: opt_str_view(self.message_type),
            tag: self.tag,
            test_name: opt_str_view(self.test_name),
        }
    }
}

/// The full outcome of validating one handshake message: its type and tag
/// when the type is known, and every error, in check order — missing
/// required fields first, then each declared field's own check.
pub open spec fn spec_validate_message(data: Seq<(String, FieldValue)>) -> ValidationResultV {
    let ti = find_field(data, "type"@);
    if ti == -1 {
        ValidationResultV {
            valid: false,
            errors: seq!["Missing 'type' field"@],
            message_type: None,
            tag: None,
            test_name: None,
        }
    } else {
        match data[ti].1 {
            FieldValue::Str(mts) => match spec_message_type(mts@) {
                None => ValidationResultV {
                    valid: false,
                    errors: seq!["Unknown message type: "@ + mts@],
                    message_type: None,
                    tag: None,
                    test_name: None,
                },
                Some(mt) => {
                    let errors = spec_missing_errors(data, required_fields_of(mt))
                        + spec_field_errors(data);
                    ValidationResultV {
                        valid: errors.len() == 0,
                        errors: errors,
                        message_type: Some(mts@),
                        tag: Some(mt.spec_tag()),
                        test_name: None,
                    }
                },
            },
            _ => ValidationResultV {
                valid: false,
                errors: seq!["Type field must be string"@],
                message_type: None,
                tag: None,
                test_name: None,
            },
        }
    }
}

/// A named test message and its expected CBOR tag.
pub struct TestVector {
    pub tag: u32,
    pub data: FieldMap,
}

/// The handshake message validator, loaded with its named test vectors.
pub struct CborValidator {
    pub test_vectors: Vec<(String, TestVector)>,
}

impl CborValidator {
    /// A validator with no test vectors loaded.
    pub fn new() -> (v: CborValidator)
        ensures
            v.test_vectors@.len() == 0,
    {
        CborValidator { test_vectors: Vec::new() }
    }

    /// Check one base64 field: it must be text that decodes, under either
    /// accepted alphabet, to exactly `expected_size` bytes.
    pub fn validate_base64_field(&self, field_name: &str, value: &FieldValue, expected_size: u64) -> (r:
        Option<String>)
        ensures
            opt_str_view(r) == spec_b64_field_error(field_name@, *value, expected_size as int),
    {
        proof {
            reveal_strlit("Field ");
            reveal_strlit(" must be string");
            reveal_strlit(" must be valid base64");
            reveal_strlit(" wrong size: ");
            reveal_strlit(" != ");
        }
        match value {
            FieldValue::Str(sv) => {
                match decode_base64(sv.as_str()) {
                    Some(bytes) => {
                        if bytes.len() as u64 == expected_size {
                            None
                        } else {
                            let lens = u64_to_string(bytes.len() as u64);
                            let exps = u64_to_string(expected_size);
                            let head = concat3("Field ", field_name, " wrong size: ");
                            let mid = concat2(head.as_str(), lens.as_str());
                            let tail = concat2(" != ", exps.as_str());
                            let m = concat2(mid.as_str(), tail.as_str());
                            proof {
                                assert(m@ =~= "Field "@ + field_name@ + " wrong size: "@ + dec_str(
                                    bytes@.len(),
                                ) + " != "@ + dec_str(expected_size as nat));
                            }
                            Some(m)
                        }
                    },
                    None => {
                        let m = concat3("Field ", field_name, " must be valid base64");
                        proof {
                            assert(m@ =~= "Field "@ + field_name@ + " must be valid base64"@);
                        }
                        Some(m)
                    },
                }
            },
            _ => {
                let m = concat3("Field ", field_name, " must be string");
                proof {
                    assert(m@ =~= "Field "@ + field_name@ + " must be string"@);
                }
                Some(m)
            },
        }
    }
}


/// The byte size a named base64 field must decode to, if it is one of the
/// sized fields.
fn b64_size_lookup(name: &String) -> (r: Option<u64>)
    ensures
        match r {
            Some(n) => b64_size_of(name@) == Some(n as int),
            None => b64_size_of(name@) is None,
        },
{
    proof {
        reveal_strlit("client_id");
        reveal_strlit("server_id");
        reveal_strlit("session_id");
        reveal_strlit("handshake_hash");
        reveal_strlit("x25519_public_key");
        reveal_strlit("nonce");
        reveal_strlit("kyber_public_key");
        reveal_strlit("kyber_ciphertext");
    }
    if name.eq(&"client_id".to_owned()) || name.eq(&"server_id".to_owned()) || name.eq(
        &"session_id".to_owned(),
    ) || name.eq(&"handshake_hash".to_owned()) || name.eq(&"x25519_public_key".to_owned()) {
        Some(32)
    } else if name.eq(&"nonce".to_owned()) {
        Some(16)
    } else if name.eq(&"kyber_public_key".to_owned()) || name.eq(&"kyber_ciphertext".to_owned()) {
        Some(1568)
    } else {
        None
    }
}

impl CborValidator {
    /// The check one declared field yields; see `spec_field_error`.
    fn field_error(&self, name: &String, value: &FieldValue) -> (r: Option<String>)
        ensures
            opt_str_view(r) == spec_field_error(name@, *value),
    {
        proof {
            reveal_strlit("type");
            reveal_strlit("version");
            reveal_strlit("timestamp");
            reveal_strlit("Field type must be string");
            reveal_strlit("Field ");
            reveal_strlit(" must be integer");
            reveal_strlit("Unknown field: ");
        }
        if name.eq(&"type".to_owned()) {
            match value {
                FieldValue::Str(_) => None,
                _ => Some("Field type must be string".to_owned()),
            }
        } else if name.eq(&"version".to_owned()) || name.eq(&"timestamp".to_owned()) {
            match value {
                FieldValue::Number => None,
                _ => {
                    let m = concat3("Field ", name.as_str(), " must be integer");
                    proof {
                        assert(m@ =~= "Field "@ + name@ + " must be integer"@);
                    }
                    Some(m)
                },
            }
        } else {
            match b64_size_lookup(name) {
                Some(expected) => self.validate_base64_field(name.as_str(), value, expected),
                None => {
                    let m = concat2("Unknown field: ", name.as_str());
                    proof {
                        assert(m@ =~= "Unknown field: "@ + name@);
                    }
                    Some(m)
                },
            }
        }
    }

    /// Validate one handshake message: its type must be declared and
    /// known, every required field of that type must be present, and every
    /// declared field must pass its own check. The outcome — validity, the
    /// resolved type and tag, and every error in check order — is exactly
    /// `spec_validate_message` of the field map.
    pub fn validate_message(&self, message_data: &FieldMap) -> (r: ValidationResult)
        ensures
            r@ == spec_validate_message(message_data@),
    {
        proof {
            reveal_strlit("type");
            reveal_strlit("Missing 'type' field");
            reveal_strlit("Type field must be string");
            reveal_strlit("Unknown message type: ");
            reveal_strlit("Missing required field: ");
        }
        let ti = match field_index(message_data, "type") {
            None => {
                let mut errors: Vec<String> = Vec::new();
                errors.push("Missing 'type' field".to_owned());
                let r = ValidationResult {
                    valid: false,
                    errors,
                    message_type: None,
                    tag: None,
                    test_name: None,
                };
                proof {
                    assert(r@ =~~= spec_validate_message(message_data@));
                }
                return r;
            },
            Some(i) => i,
        };
        let mts = match &message_data[ti].1 {
            FieldValue::Str(s) => s,
            _ => {
                let mut errors: Vec<String> = Vec::new();
                errors.push("Type field must be string".to_owned());
                let r = ValidationResult {
                    valid: false,
                    errors,
                    message_type: None,
                    tag: None,
                    test_name: None,
                };
                proof {
                    assert(r@ =~~= spec_validate_message(message_data@));
                }
                return r;
            },
        };
        let mt = match MessageType::from_str(mts.as_str()) {
            None => {
                let mut errors: Vec<String> = Vec::new();
                let m = concat2("Unknown message type: ", mts.as_str());
                proof {
                    assert(m@ =~= "Unknown message type: "@ + mts@);
                }
                errors.push(m);
                let r = ValidationResult {
                    valid: false,
                    errors,
                    message_type: None,
                    tag: None,
                    test_name: None,
                };
                proof {
                    assert(r@ =~~= spec_validate_message(message_data@));
                }
                return r;
            },
            Some(mt) => mt,
        };
        let required: Vec<&'static str> = required_field_names(mt);
        let ghost req_views = required_fields_of(mt);
        let mut errors: Vec<String> = Vec::new();
        let nr = required.len();
        proof {
            assert(req_views.skip(0) =~= req_views);
        }
        for i in 0..nr
            invariant
                nr == required@.len() == req_views.len(),
                forall|j: int| 0 <= j < nr ==> (#[trigger] required@[j])@ == req_views[j],
                errors@.map_values(|e: String| e@) + spec_missing_errors(
                    message_data@,
                    req_views.skip(i as int),
                ) =~= spec_missing_errors(message_data@, req_views),
        {
            proof {
                assert(req_views.skip(i as int)[0] == req_views[i as int]);
                assert(req_views.skip(i as int).drop_first() =~= req_views.skip(i as int + 1));
            }
            if field_index(message_data, required[i]).is_none() {
                let ghost pre = errors@.map_values(|e: String| e@);
                let m = concat2("Missing required field: ", required[i]);
                proof {
                    assert(m@ =~= "Missing required field: "@ + req_views[i as int]);
                }
                errors.push(m);
                proof {
                    assert(errors@.map_values(|e: String| e@) =~= pre + seq![m@]);
                }
            }
        }
        proof {
            assert(req_views.skip(nr as int) =~= Seq::<Seq<char>>::empty());
        }
        let ghost missing_part = spec_missing_errors(message_data@, req_views);
        let nf = message_data.len();
        proof {
            assert(message_data@.skip(0) =~= message_data@);
        }
        for i in 0..nf
            invariant
                nf == message_data@.len(),
                errors@.map_values(|e: String| e@) + spec_field_errors(
                    message_data@.skip(i as int),
                ) =~= missing_part + spec_field_errors(message_data@),
        {
            proof {
                assert(message_data@.skip(i as int)[0] == message_data@[i as int]);
                assert(message_data@.skip(i as int).drop_first() =~= message_data@.skip(
                    i as int + 1,
                ));
            }
            if let Some(e) = self.field_error(&message_data[i].0, &message_data[i].1) {
                let ghost pre = errors@.map_values(|ee: String| ee@);
                errors.push(e);
                proof {
                    assert(errors@.map_values(|ee: String| ee@) =~= pre + seq![e@]);
                }
            }
        }
        proof {
            assert(message_data@.skip(nf as int) =~= Seq::<(String, FieldValue)>::empty());
        }
        let valid = errors.len() == 0;
        let r = ValidationResult {
            valid,
            errors,
            message_type: Some(mts.clone()),
            tag: Some(mt.tag()),
            test_name: None,
        };
        proof {
            assert(r@ =~~= spec_validate_message(message_data@));
        }
        r
    }
}

/// The required field names of a message type, in check order.
fn required_field_names(mt: MessageType) -> (r: Vec<&'static str>)
    ensures
        r@.len() == required_fields_of(mt).len(),
        forall|j: int| 0 <= j < r@.len() ==> (#[trigger] r@[j])@ == required_fields_of(mt)[j],
{
    proof {
        reveal_strlit("type");
        reveal_strlit("version");
        reveal_strlit("session_id");
        reveal_strlit("handshake_hash");
        reveal_strlit("timestamp");
        reveal_strlit("client_id");
        reveal_strlit("x25519_public_key");
        reveal_strlit("kyber_public_key");
        reveal_strlit("nonce");
        reveal_strlit("server_id");
        reveal_strlit("kyber_ciphertext");
    }
    let mut r: Vec<&'static str> = Vec::new();
    match mt {
        MessageType::HandshakeComplete => {
            r.push("type");
            r.push("version");
            r.push("session_id");
            r.push("handshake_hash");
            r.push("timestamp");
        },
        MessageType::HandshakeInit => {
            r.push("type");
            r.push("version");
            r.push("client_id");
            r.push("x25519_public_key");
            r.push("kyber_public_key");
            r.push("timestamp");
            r.push("nonce");
        },
        MessageType::HandshakeResponse => {
            r.push("type");
            r.push("version");
            r.push("server_id");
            r.push("x25519_public_key");
            r.push("kyber_ciphertext");
            r.push("timestamp");
            r.push("nonce");
        },
    }
    r
}


// ---------------------------------------------------------------------------
// Schema-driven validation.
// ---------------------------------------------------------------------------

/// The outcome of validating one message against its schema.
pub struct SchemaValidationResult {
    pub valid: bool,
    pub errors: Vec<String>,
    pub warnings: Vec<String>,
    pub message_type: Option<String>,
    pub schema_version: String,
}

/// Mathematical value of a schema validation outcome.
#[verifier::ext_equal]
pub ghost struct SchemaValidationResultV {
    pub valid: bool,
    pub errors: Seq<Seq<char>>,
    pub warnings: Seq<Seq<char>>,
    pub message_type: Option<Seq<char>>,
    pub schema_version: Seq<char>,
}

impl View for SchemaValidationResult {
    type V = SchemaValidationResultV;

    open spec fn view(&self) -> SchemaValidationResultV {
        SchemaValidationResultV {
            valid: self.valid,
            errors: self.errors@.map_values(|e: String| e@),
            warnings: self.warnings@.map_values(|e: String| e@),
            message_type: opt_str_view(self.message_type),
            schema_version: self.schema_version@,
        }
    }
}

/// How one field of a schema is checked.
pub struct FieldDefinition {
    pub field_type: String,
    pub required: bool,
    pub size_bytes: Option<u64>,
    pub min_size: Option<u64>,
    pub max_size: Option<u64>,
    pub description: String,
}

/// The schema of one message type.
pub struct MessageSchema {
    pub message_type: String,
    pub tag: u32,
    pub required_fields: Vec<String>,
    pub optional_fields: Vec<String>,
    pub field_definitions: Vec<(String, FieldDefinition)>,
}

/// First schema declared for a message type reading `mt`, or -1.
pub open spec fn find_schema(schemas: Seq<MessageSchema>, mt: Seq<char>) -> int
    decreases schemas.len(),
{
    if schemas.len() == 0 {
        -1
    } else if schemas[0].message_type@ == mt {
        0
    } else {
        let rest = find_schema(schemas.drop_first(), mt);
        if rest == -1 {
            -1
        } else {
            rest + 1
        }
    }
}

pub proof fn lemma_find_schema(schemas: Seq<MessageSchema>, mt: Seq<char>)
    ensures
        -1 <= find_schema(schemas, mt) < schemas.len(),
        find_schema(schemas, mt) == -1 ==> forall|i: int|
            0 <= i < schemas.len() ==> (#[trigger] schemas[i]).message_type@ != mt,
        find_schema(schemas, mt) >= 0 ==> {
            &&& schemas[find_schema(schemas, mt)].message_type@ == mt
            &&& forall|i: int|
                0 <= i < find_schema(schemas, mt) ==> (#[trigger] schemas[i]).message_type@ != mt
        },
    decreases schemas.len(),
{
    if schemas.len() > 0 && schemas[0].message_type@ != mt {
        lemma_find_schema(schemas.drop_first(), mt);
        assert forall|i: int| 1 <= i < schemas.len() implies schemas.drop_first()[i - 1]
            == schemas[i] by {}
    }
}

/// First field definition named `k`, or -1.
pub open spec fn find_def(defs: Seq<(String, FieldDefinition)>, k: Seq<char>) -> int
    decreases defs.len(),
{
    if defs.len() == 0 {
        -1
    } else if defs[0].0@ == k {
        0
    } else {
        let rest = find_def(defs.drop_first(), k);
        if rest == -1 {
            -1
        } else {
            rest + 1
        }
    }
}

pub proof fn lemma_find_def(defs: Seq<(String, FieldDefinition)>, k: Seq<char>)
    ensures
        -1 <= find_def(defs, k) < defs.len(),
        find_def(defs, k) == -1 ==> forall|i: int| 0 <= i < defs.len() ==> (#[trigger] defs[i].0)@ != k,
        find_def(defs, k) >= 0 ==> {
            &&& defs[find_def(defs, k)].0@ == k
            &&& forall|i: int| 0 <= i < find_def(defs, k) ==> (#[trigger] defs[i].0)@ != k
        },
    decreases defs.len(),
{
    if defs.len() > 0 && defs[0].0@ != k {
        lemma_find_def(defs.drop_first(), k);
        assert forall|i: int| 1 <= i < defs.len() implies defs.drop_first()[i - 1] == defs[i] by {}
    }
}

/// Whether a list of names holds one reading `k`.
pub open spec fn names_contain(names: Seq<String>, k: Seq<char>) -> bool {
    exists|i: int| 0 <= i < names.len() && (#[trigger] names[i])@ == k
}

/// The error a schema-driven base64 check yields, if any: the field must
/// be text that decodes under either alphabet, to the exact size when one
/// is declared, and within the declared minimum and maximum otherwise.
pub open spec fn spec_schema_b64_error(name: Seq<char>, v: FieldValue, def: FieldDefinition) -> Option<
    Seq<char>,
> {
    match v {
        FieldValue::Str(s) => match b64_decoded(s@) {
            Some(b) => if def.size_bytes is Some && b.len() != def.size_bytes->0 {
                Some(
                    "Field "@ + name + " wrong size: "@ + dec_str(b.len()) + " != "@ + dec_str(
                        def.size_bytes->0 as nat,
                    ),
                )
            } else if def.min_size is Some && b.len() < def.min_size->0 {
                Some(
                    "Field "@ + name + " too small: "@ + dec_str(b.len()) + " < "@ + dec_str(
                        def.min_size->0 as nat,
                    ),
                )
            } else if def.max_size is Some && b.len() > def.max_size->0 {
                Some(
                    "Field "@ + name + " too large: "@ + dec_str(b.len()) + " > "@ + dec_str(
                        def.max_size->0 as nat,
                    ),
                )
            } else {
                None
            },
            None => Some("Field "@ + name + " must be valid base64"@),
        },
        _ => Some("Field "@ + name + " must be string"@),
    }
}

/// What one schema-driven field check yields: an error, a warning (for an
/// unknown field type), or nothing.
pub open spec fn spec_schema_field_check(name: Seq<char>, v: FieldValue, def: FieldDefinition) -> (
    Option<Seq<char>>,
    Option<Seq<char>>,
) {
    if def.field_type@ == "string"@ {
        if v is Str {
            (None, None)
        } else {
            (Some("Field "@ + name + " must be string"@), None)
        }
    } else if def.field_type@ == "integer"@ {
        if v is Number {
            (None, None)
        } else {
            (Some("Field "@ + name + " must be integer"@), None)
        }
    } else if def.field_type@ == "base64"@ {
        (spec_schema_b64_error(name, v, def), None)
    } else {
        (None, Some("Unknown field type: "@ + def.field_type@ + " for field "@ + name))
    }
}

/// The unknown-field warnings, in declaration order.
pub open spec fn spec_unknown_warnings(
    data: Seq<(String, FieldValue)>,
    required: Seq<String>,
    optional: Seq<String>,
) -> Seq<Seq<char>>
    decreases data.len(),
{
    if data.len() == 0 {
        Seq::empty()
    } else {
        (if !names_contain(required, data[0].0@) && !names_contain(optional, data[0].0@) {
            seq!["Unknown field: "@ + data[0].0@]
        } else {
            Seq::<Seq<char>>::empty()
        }) + spec_unknown_warnings(data.drop_first(), required, optional)
    }
}

/// The schema-driven per-field errors, in declaration order.
pub open spec fn spec_def_errors(
    data: Seq<(String, FieldValue)>,
    defs: Seq<(String, FieldDefinition)>,
) -> Seq<Seq<char>>
    decreases data.len(),
{
    if data.len() == 0 {
        Seq::empty()
    } else {
        (if find_def(defs, data[0].0@) >= 0 {
            match spec_schema_field_check(
                data[0].0@,
                data[0].1,
                defs[find_def(defs, data[0].0@)].1,
            ).0 {
                Some(e) => seq![e],
                None => Seq::<Seq<char>>::empty(),
            }
        } else {
            Seq::<Seq<char>>::empty()
        }) + spec_def_errors(data.drop_first(), defs)
    }
}

/// The schema-driven per-field warnings, in declaration order.
pub open spec fn spec_def_warnings(
    data: Seq<(String, FieldValue)>,
    defs: Seq<(String, FieldDefinition)>,
) -> Seq<Seq<char>>
    decreases data.len(),
{
    if data.len() == 0 {
        Seq::empty()
    } else {
        (if find_def(defs, data[0].0@) >= 0 {
            match spec_schema_field_check(
                data[0].0@,
                data[0].1,
                defs[find_def(defs, data[0].0@)].1,
            ).1 {
                Some(w) => seq![w],
                None => Seq::<Seq<char>>::empty(),
            }
        } else {
            Seq::<Seq<char>>::empty()
        }) + spec_def_warnings(data.drop_first(), defs)
    }
}

/// The missing-field errors against a schema's required names.
pub open spec fn spec_schema_missing(
    data: Seq<(String, FieldValue)>,
    required: Seq<String>,
) -> Seq<Seq<char>>
    decreases required.len(),
{
    if required.len() == 0 {
        Seq::empty()
    } else {
        (if !has_field(data, required[0]@) {
            seq!["Missing required field: "@ + required[0]@]
        } else {
            Seq::<Seq<char>>::empty()
        }) + spec_schema_missing(data, required.drop_first())
    }
}

/// The full outcome of validating one message against a schema table.
pub open spec fn spec_schema_validate(
    schemas: Seq<MessageSchema>,
    data: Seq<(String, FieldValue)>,
    version: Seq<char>,
) -> SchemaValidationResultV {
    let ti = find_field(data, "type"@);
    if ti == -1 {
        SchemaValidationResultV {
            valid: false,
            errors: seq!["Missing 'type' field"@],
            warnings: Seq::empty(),
            message_type: None,
            schema_version: version,
        }
    } else {
        match data[ti].1 {
            FieldValue::Str(mts) => {
                let si = find_schema(schemas, mts@);
                if si == -1 {
                    SchemaValidationResultV {
                        valid: false,
                        errors: seq!["Unknown message type: "@ + mts@],
                        warnings: Seq::empty(),
                        message_type: Some(mts@),
                        schema_version: version,
                    }
                } else {
                    let schema = schemas[si];
                    let errors = spec_schema_missing(data, schema.required_fields@)
                        + spec_def_errors(data, schema.field_definitions@);
                    let warnings = spec_unknown_warnings(
                        data,
                        schema.required_fields@,
                        schema.optional_fields@,
                    ) + spec_def_warnings(data, schema.field_definitions@);
                    SchemaValidationResultV {
                        valid: errors.len() == 0,
                        errors: errors,
                        warnings: warnings,
                        message_type: Some(mts@),
                        schema_version: version,
                    }
                }
            },
            _ => SchemaValidationResultV {
                valid: false,
                errors: seq!["Type field must be string"@],
                warnings: Seq::empty(),
                message_type: None,
                schema_version: version,
            },
        }
    }
}


/// One field definition carries the given name, type and exact size, is
/// required, and has no minimum or maximum.
pub open spec fn def_is(
    d: (String, FieldDefinition),
    name: Seq<char>,
    ftype: Seq<char>,
    size: Option<int>,
) -> bool {
    &&& d.0@ == name
    &&& d.1.field_type@ == ftype
    &&& d.1.required
    &&& (match size {
        Some(n) => d.1.size_bytes matches Some(x) && x == n,
        None => d.1.size_bytes is None,
    })
    &&& d.1.min_size is None
    &&& d.1.max_size is None
}

/// The handshake schema table: one schema per message type, with its tag,
/// required fields, and per-field definitions.
pub open spec fn handshake_schemas_wf(schemas: Seq<MessageSchema>) -> bool {
    &&& schemas.len() == 3
    &&& schemas[0].message_type@ == "HANDSHAKE_INIT"@
    &&& schemas[0].tag == 0xD1u32
    &&& schemas[0].required_fields@.map_values(|f: String| f@) == required_fields_of(
        MessageType::HandshakeInit,
    )
    &&& schemas[0].optional_fields@.len() == 0
    &&& schemas[0].field_definitions@.len() == 7
    &&& def_is(schemas[0].field_definitions@[0], "type"@, "string"@, None)
    &&& def_is(schemas[0].field_definitions@[1], "version"@, "integer"@, None)
    &&& def_is(schemas[0].field_definitions@[2], "client_id"@, "base64"@, Some(32))
    &&& def_is(schemas[0].field_definitions@[3], "x25519_public_key"@, "base64"@, Some(32))
    &&& def_is(schemas[0].field_definitions@[4], "kyber_public_key"@, "base64"@, Some(1568))
    &&& def_is(schemas[0].field_definitions@[5], "timestamp"@, "integer"@, None)
    &&& def_is(schemas[0].field_definitions@[6], "nonce"@, "base64"@, Some(16))
    &&& schemas[1].message_type@ == "HANDSHAKE_RESPONSE"@
    &&& schemas[1].tag == 0xD2u32
    &&& schemas[1].required_fields@.map_values(|f: String| f@) == required_fields_of(
        MessageType::HandshakeResponse,
    )
    &&& schemas[1].optional_fields@.len() == 0
    &&& schemas[1].field_definitions@.len() == 7
    &&& def_is(schemas[1].field_definitions@[0], "type"@, "string"@, None)
    &&& def_is(schemas[1].field_definitions@[1], "version"@, "integer"@, None)
    &&& def_is(schemas[1].field_definitions@[2], "server_id"@, "base64"@, Some(32))
    &&& def_is(schemas[1].field_definitions@[3], "x25519_public_key"@, "base64"@, Some(32))
    &&& def_is(schemas[1].field_definitions@[4], "kyber_ciphertext"@, "base64"@, Some(1568))
    &&& def_is(schemas[1].field_definitions@[5], "timestamp"@, "integer"@, None)
    &&& def_is(schemas[1].field_definitions@[6], "nonce"@, "base64"@, Some(16))
    &&& schemas[2].message_type@ == "HANDSHAKE_COMPLETE"@
    &&& schemas[2].tag == 0xD3u32
    &&& schemas[2].required_fields@.map_values(|f: String| f@) == required_fields_of(
        MessageType::HandshakeComplete,
    )
    &&& schemas[2].optional_fields@.len() == 0
    &&& schemas[2].field_definitions@.len() == 5
    &&& def_is(schemas[2].field_definitions@[0], "type"@, "string"@, None)
    &&& def_is(schemas[2].field_definitions@[1], "version"@, "integer"@, None)
    &&& def_is(schemas[2].field_definitions@[2], "session_id"@, "base64"@, Some(32))
    &&& def_is(schemas[2].field_definitions@[3], "handshake_hash"@, "base64"@, Some(32))
    &&& def_is(schemas[2].field_definitions@[4], "timestamp"@, "integer"@, None)
}

/// The schema-driven message validator.
pub struct SchemaValidator {
    pub schemas: Vec<MessageSchema>,
    pub schema_version: String,
}

fn required_strings(mt: MessageType) -> (r: Vec<String>)
    ensures
        r@.map_values(|f: String| f@) == required_fields_of(mt),
{
    let names = required_field_names(mt);
    let mut r: Vec<String> = Vec::new();
    let n = names.len();
    for i in 0..n
        invariant
            n == names@.len(),
            r@.len() == i,
            forall|j: int| 0 <= j < n ==> (#[trigger] names@[j])@ == required_fields_of(mt)[j],
            forall|j: int| 0 <= j < i ==> (#[trigger] r@[j])@ == required_fields_of(mt)[j],
    {
        r.push(names[i].to_owned());
    }
    proof {
        assert(r@.map_values(|f: String| f@) =~= required_fields_of(mt));
    }
    r
}

impl SchemaValidator {
    /// A validator loaded with the handshake schema table, version `0.9`.
    pub fn new() -> (v: SchemaValidator)
        ensures
            handshake_schemas_wf(v.schemas@),
            v.schema_version@ == "0.9"@,
    {
        let mut v = SchemaValidator { schemas: Vec::new(), schema_version: "0.9".to_owned() };
        v.initialize_schemas();
        proof {
            reveal_strlit("0.9");
        }
        v
    }

    /// Install the handshake schema table; see `handshake_schemas_wf`.
    fn initialize_schemas(&mut self)
        requires
            old(self).schemas@.len() == 0,
        ensures
            handshake_schemas_wf(final(self).schemas@),
            final(self).schema_version == old(self).schema_version,
    {
        proof {
        reveal_strlit("0.9");
        reveal_strlit("HANDSHAKE_COMPLETE");
        reveal_strlit("HANDSHAKE_INIT");
        reveal_strlit("HANDSHAKE_RESPONSE");
        reveal_strlit("base64");
        reveal_strlit("client_id");
        reveal_strlit("handshake_hash");
        reveal_strlit("integer");
        reveal_strlit("kyber_ciphertext");
        reveal_strlit("kyber_public_key");
        reveal_strlit("nonce");
        reveal_strlit("server_id");
        reveal_strlit("session_id");
        reveal_strlit("string");
        reveal_strlit("timestamp");
        reveal_strlit("type");
        reveal_strlit("version");
        reveal_strlit("x25519_public_key");
        }
        let mut init_defs: Vec<(String, FieldDefinition)> = Vec::new();
    init_defs.push(
        (
            "type".to_owned(),
            FieldDefinition {
                field_type: "string".to_owned(),
                required: true,
                size_bytes: None,
                min_size: None,
                max_size: None,
                description: "Message type identifier".to_owned(),
            },
        ),
    );
    init_defs.push(
        (
            "version".to_owned(),
            FieldDefinition {
                field_type: "integer".to_owned(),
                required: true,
                size_bytes: None,
                min_size: None,
                max_size: None,
                description: "Protocol version".to_owned(),
            },
        ),
    );
    init_defs.push(
        (
            "client_id".to_owned(),
            FieldDefinition {
                field_type: "base64".to_owned(),
                required: true,
                size_bytes: Some(32),
                min_size: None,
                max_size: None,
                description: "Client identifier (32 bytes)".to_owned(),
            },
        ),
    );
    init_defs.push(
        (
            "x25519_public_key".to_owned(),
            FieldDefinition {
                field_type: "base64".to_owned(),
                required: true,
                size_bytes: Some(32),
                min_size: None,
                max_size: None,
                description: "X25519 public key (32 bytes)".to_owned(),
            },
        ),
    );
    init_defs.push(
        (
            "kyber_public_key".to_owned(),
            FieldDefinition {
                field_type: "base64".to_owned(),
                required: true,
                size_bytes: Some(1568),
                min_size: None,
                max_size: None,
                description: "Kyber public key (1568 bytes)".to_owned(),
            },
        ),
    );
    init_defs.push(
        (
            "timestamp".to_owned(),
            FieldDefinition {
                field_type: "integer".to_owned(),
                required: true,
                size_bytes: None,
                min_size: None,
                max_size: None,
                description: "Unix timestamp".to_owned(),
            },
        ),
    );
    init_defs.push(
        (
            "nonce".to_owned(),
            FieldDefinition {
                field_type: "base64".to_owned(),
                required: true,
                size_bytes: Some(16),
                min_size: None,
                max_size: None,
                description: "Random nonce (16 bytes)".to_owned(),
            },
        ),
    );
        self.schemas.push(
            MessageSchema {
                message_type: "HANDSHAKE_INIT".to_owned(),
                tag: 0xD1,
                required_fields: required_strings(MessageType::HandshakeInit),
                optional_fields: Vec::new(),
                field_definitions: init_defs,
            },
        );
        let mut resp_defs: Vec<(String, FieldDefinition)> = Vec::new();
    resp_defs.push(
        (
            "type".to_owned(),
            FieldDefinition {
                field_type: "string".to_owned(),
                required: true,
                size_bytes: None,
                min_size: None,
                max_size: None,
                description: "Message type identifier".to_owned(),
            },
        ),
    );
    resp_defs.push(
        (
            "version".to_owned(),
            FieldDefinition {
                field_type: "integer".to_owned(),
                required: true,
                size_bytes: None,
                min_size: None,
                max_size: None,
                description: "Protocol version".to_owned(),
            },
        ),
    );
    resp_defs.push(
        (
            "server_id".to_owned(),
            FieldDefinition {
                field_type: "base64".to_owned(),
                required: true,
                size_bytes: Some(32),
                min_size: None,
                max_size: None,
                description: "Server identifier (32 bytes)".to_owned(),
            },
        ),
    );
    resp_defs.push(
        (
            "x25519_public_key".to_owned(),
            FieldDefinition {
                field_type: "base64".to_owned(),
                required: true,
                size_bytes: Some(32),
                min_size: None,
                max_size: None,
                description: "X25519 public key (32 bytes)".to_owned(),
            },
        ),
    );
    resp_defs.push(
        (
            "kyber_ciphertext".to_owned(),
            FieldDefinition {
                field_type: "base64".to_owned(),
                required: true,
                size_bytes: Some(1568),
                min_size: None,
                max_size: None,
                description: "Kyber ciphertext (1568 bytes)".to_owned(),
            },
        ),
    );
    resp_defs.push(
        (
            "timestamp".to_owned(),
            FieldDefinition {
                field_type: "integer".to_owned(),
                required: true,
                size_bytes: None,
                min_size: None,
                max_size: None,
                description: "Unix timestamp".to_owned(),
            },
        ),
    );
    resp_defs.push(
        (
            "nonce".to_owned(),
            FieldDefinition {
                field_type: "base64".to_owned(),
                required: true,
                size_bytes: Some(16),
                min_size: None,
                max_size: None,
                description: "Random nonce (16 bytes)".to_owned(),
            },
        ),
    );
        self.schemas.push(
            MessageSchema {
                message_type: "HANDSHAKE_RESPONSE".to_owned(),
                tag: 0xD2,
                required_fields: required_strings(MessageType::HandshakeResponse),
                optional_fields: Vec::new(),
                field_definitions: resp_defs,
            },
        );
        let mut comp_defs: Vec<(String, FieldDefinition)> = Vec::new();
    comp_defs.push(
        (
            "type".to_owned(),
            FieldDefinition {
                field_type: "string".to_owned(),
                required: true,
                size_bytes: None,
                min_size: None,
                max_size: None,
                description: "Message type identifier".to_owned(),
            },
        ),
    );
    comp_defs.push(
        (
            "version".to_owned(),
            FieldDefinition {
                field_type: "integer".to_owned(),
                required: true,
                size_bytes: None,
                min_size: None,
                max_size: None,
                description: "Protocol version".to_owned(),
            },
        ),
    );
    comp_defs.push(
        (
            "session_id".to_owned(),
            FieldDefinition {
                field_type: "base64".to_owned(),
                required: true,
                size_bytes: Some(32),
                min_size: None,
                max_size: None,
                description: "Session identifier (32 bytes)".to_owned(),
            },
        ),
    );
    comp_defs.push(
        (
            "handshake_hash".to_owned(),
            FieldDefinition {
                field_type: "base64".to_owned(),
                required: true,
                size_bytes: Some(32),
                min_size: None,
                max_size: None,
                description: "Handshake hash (32 bytes)".to_owned(),
            },
        ),
    );
    comp_defs.push(
        (
            "timestamp".to_owned(),
            FieldDefinition {
                field_type: "integer".to_owned(),
                required: true,
                size_bytes: None,
                min_size: None,
                max_size: None,
                description: "Unix timestamp".to_owned(),
            },
        ),
    );
        self.schemas.push(
            MessageSchema {
                message_type: "HANDSHAKE_COMPLETE".to_owned(),
                tag: 0xD3,
                required_fields: required_strings(MessageType::HandshakeComplete),
                optional_fields: Vec::new(),
                field_definitions: comp_defs,
            },
        );
    }
}


fn names_index(names: &Vec<String>, k: &String) -> (r: bool)
    ensures
        r == names_contain(names@, k@),
{
    let n = names.len();
    for i in 0..n
        invariant
            n == names@.len(),
            forall|j: int| 0 <= j < i ==> (#[trigger] names@[j])@ != k@,
    {
        if names[i].eq(k) {
            return true;
        }
    }
    false
}

fn def_index(defs: &Vec<(String, FieldDefinition)>, k: &String) -> (r: Option<usize>)
    ensures
        r matches Some(i) ==> i as int == find_def(defs@, k@) && i < defs@.len(),
        r is None ==> find_def(defs@, k@) == -1,
{
    let n = defs.len();
    for i in 0..n
        invariant
            n == defs@.len(),
            forall|j: int| 0 <= j < i ==> (#[trigger] defs@[j].0)@ != k@,
    {
        if defs[i].0.eq(k) {
            proof {
                lemma_find_def(defs@, k@);
                if find_def(defs@, k@) != i as int {
                    assert(defs@[find_def(defs@, k@)].0@ == k@);
                }
            }
            return Some(i);
        }
    }
    proof {
        lemma_find_def(defs@, k@);
        if find_def(defs@, k@) >= 0 {
            assert(defs@[find_def(defs@, k@)].0@ == k@);
        }
    }
    None
}

fn schema_index(schemas: &Vec<MessageSchema>, mt: &String) -> (r: Option<usize>)
    ensures
        r matches Some(i) ==> i as int == find_schema(schemas@, mt@) && i < schemas@.len(),
        r is None ==> find_schema(schemas@, mt@) == -1,
{
    let n = schemas.len();
    for i in 0..n
        invariant
            n == schemas@.len(),
            forall|j: int| 0 <= j < i ==> (#[trigger] schemas@[j]).message_type@ != mt@,
    {
        if schemas[i].message_type.eq(mt) {
            proof {
                lemma_find_schema(schemas@, mt@);
                if find_schema(schemas@, mt@) != i as int {
                    assert(schemas@[find_schema(schemas@, mt@)].message_type@ == mt@);
                }
            }
            return Some(i);
        }
    }
    proof {
        lemma_find_schema(schemas@, mt@);
        if find_schema(schemas@, mt@) >= 0 {
            assert(schemas@[find_schema(schemas@, mt@)].message_type@ == mt@);
        }
    }
    None
}

impl SchemaValidator {
    /// Check one base64 field against its definition; see
    /// `spec_schema_b64_error`.
    fn validate_base64_field(&self, field_name: &str, value: &FieldValue, field_def: &FieldDefinition) -> (r:
        Option<String>)
        ensures
            opt_str_view(r) == spec_schema_b64_error(field_name@, *value, *field_def),
    {
        proof {
            reveal_strlit("Field ");
            reveal_strlit(" must be string");
            reveal_strlit(" must be valid base64");
            reveal_strlit(" wrong size: ");
            reveal_strlit(" != ");
            reveal_strlit(" too small: ");
            reveal_strlit(" < ");
            reveal_strlit(" too large: ");
            reveal_strlit(" > ");
        }
        match value {
            FieldValue::Str(sv) => {
                match decode_base64(sv.as_str()) {
                    Some(bytes) => {
                        let blen = bytes.len() as u64;
                        if let Some(expected) = field_def.size_bytes {
                            if blen != expected {
                                let head = concat3("Field ", field_name, " wrong size: ");
                                let mid = concat2(head.as_str(), u64_to_string(blen).as_str());
                                let tail = concat2(" != ", u64_to_string(expected).as_str());
                                let m = concat2(mid.as_str(), tail.as_str());
                                proof {
                                    assert(m@ =~= "Field "@ + field_name@ + " wrong size: "@
                                        + dec_str(bytes@.len()) + " != "@ + dec_str(
                                        expected as nat,
                                    ));
                                }
                                return Some(m);
                            }
                        }
                        if let Some(mn) = field_def.min_size {
                            if blen < mn {
                                let head = concat3("Field ", field_name, " too small: ");
                                let mid = concat2(head.as_str(), u64_to_string(blen).as_str());
                                let tail = concat2(" < ", u64_to_string(mn).as_str());
                                let m = concat2(mid.as_str(), tail.as_str());
                                proof {
                                    assert(m@ =~= "Field "@ + field_name@ + " too small: "@
                                        + dec_str(bytes@.len()) + " < "@ + dec_str(mn as nat));
                                }
                                return Some(m);
                            }
                        }
                        if let Some(mx) = field_def.max_size {
                            if blen > mx {
                                let head = concat3("Field ", field_name, " too large: ");
                                let mid = concat2(head.as_str(), u64_to_string(blen).as_str());
                                let tail = concat2(" > ", u64_to_string(mx).as_str());
                                let m = concat2(mid.as_str(), tail.as_str());
                                proof {
                                    assert(m@ =~= "Field "@ + field_name@ + " too large: "@
                                        + dec_str(bytes@.len()) + " > "@ + dec_str(mx as nat));
                                }
                                return Some(m);
                            }
                        }
                        None
                    },
                    None => {
                        let m = concat3("Field ", field_name, " must be valid base64");
                        proof {
                            assert(m@ =~= "Field "@ + field_name@ + " must be valid base64"@);
                        }
                        Some(m)
                    },
                }
            },
            _ => {
                let m = concat3("Field ", field_name, " must be string");
                proof {
                    assert(m@ =~= "Field "@ + field_name@ + " must be string"@);
                }
                Some(m)
            },
        }
    }

    /// Check one field against its definition; see
    /// `spec_schema_field_check`.
    fn validate_field(&self, field_name: &str, value: &FieldValue, field_def: &FieldDefinition) -> (r: (
        Option<String>,
        Option<String>,
    ))
        ensures
            (opt_str_view(r.0), opt_str_view(r.1)) == spec_schema_field_check(
                field_name@,
                *value,
                *field_def,
            ),
    {
        proof {
            reveal_strlit("string");
            reveal_strlit("integer");
            reveal_strlit("base64");
            reveal_strlit("Field ");
            reveal_strlit(" must be string");
            reveal_strlit(" must be integer");
            reveal_strlit("Unknown field type: ");
            reveal_strlit(" for field ");
        }
        if field_def.field_type.eq(&"string".to_owned()) {
            match value {
                FieldValue::Str(_) => (None, None),
                _ => {
                    let m = concat3("Field ", field_name, " must be string");
                    proof {
                        assert(m@ =~= "Field "@ + field_name@ + " must be string"@);
                    }
                    (Some(m), None)
                },
            }
        } else if field_def.field_type.eq(&"integer".to_owned()) {
            match value {
                FieldValue::Number => (None, None),
                _ => {
                    let m = concat3("Field ", field_name, " must be integer");
                    proof {
                        assert(m@ =~= "Field "@ + field_name@ + " must be integer"@);
                    }
                    (Some(m), None)
                },
            }
        } else if field_def.field_type.eq(&"base64".to_owned()) {
            (self.validate_base64_field(field_name, value, field_def), None)
        } else {
            let head = concat2("Unknown field type: ", field_def.field_type.as_str());
            let m = concat3(head.as_str(), " for field ", field_name);
            proof {
                assert(m@ =~= "Unknown field type: "@ + field_def.field_type@ + " for field "@
                    + field_name@);
            }
            (None, Some(m))
        }
    }

    /// Validate one message against the loaded schema table: its type must
    /// be declared and have a schema, every required field must be
    /// present, undeclared fields are warned about, and every field with a
    /// definition must pass it. The outcome is exactly
    /// `spec_schema_validate` of the table and the field map.
    pub fn validate_message(&self, message_data: &FieldMap) -> (r: SchemaValidationResult)
        ensures
            r@ == spec_schema_validate(self.schemas@, message_data@, self.schema_version@),
    {
        proof {
            reveal_strlit("type");
            reveal_strlit("Missing 'type' field");
            reveal_strlit("Type field must be string");
            reveal_strlit("Unknown message type: ");
            reveal_strlit("Missing required field: ");
            reveal_strlit("Unknown field: ");
        }
        let ti = match field_index(message_data, "type") {
            None => {
                let mut errors: Vec<String> = Vec::new();
                errors.push("Missing 'type' field".to_owned());
                let r = SchemaValidationResult {
                    valid: false,
                    errors,
                    warnings: Vec::new(),
                    message_type: None,
                    schema_version: self.schema_version.clone(),
                };
                proof {
                    assert(r@ =~~= spec_schema_validate(
                        self.schemas@,
                        message_data@,
                        self.schema_version@,
                    ));
                }
                return r;
            },
            Some(i) => i,
        };
        let mts = match &message_data[ti].1 {
            FieldValue::Str(s) => s,
            _ => {
                let mut errors: Vec<String> = Vec::new();
                errors.push("Type field must be string".to_owned());
                let r = SchemaValidationResult {
                    valid: false,
                    errors,
                    warnings: Vec::new(),
                    message_type: None,
                    schema_version: self.schema_version.clone(),
                };
                proof {
                    assert(r@ =~~= spec_schema_validate(
                        self.schemas@,
                        message_data@,
                        self.schema_version@,
                    ));
                }
                return r;
            },
        };
        let si = match schema_index(&self.schemas, mts) {
            None => {
                let mut errors: Vec<String> = Vec::new();
                let m = concat2("Unknown message type: ", mts.as_str());
                proof {
                    assert(m@ =~= "Unknown message type: "@ + mts@);
                }
                errors.push(m);
                let r = SchemaValidationResult {
                    valid: false,
                    errors,
                    warnings: Vec::new(),
                    message_type: Some(mts.clone()),
                    schema_version: self.schema_version.clone(),
                };
                proof {
                    assert(r@ =~~= spec_schema_validate(
                        self.schemas@,
                        message_data@,
                        self.schema_version@,
                    ));
                }
                return r;
            },
            Some(i) => i,
        };
        let schema = &self.schemas[si];
        let mut errors: Vec<String> = Vec::new();
        let mut warnings: Vec<String> = Vec::new();
        let nr = schema.required_fields.len();
        proof {
            assert(schema.required_fields@.skip(0) =~= schema.required_fields@);
        }
        for i in 0..nr
            invariant
                nr == schema.required_fields@.len(),
                schema == &self.schemas@[si as int],
                si < self.schemas@.len(),
                errors@.map_values(|e: String| e@) + spec_schema_missing(
                    message_data@,
                    schema.required_fields@.skip(i as int),
                ) =~= spec_schema_missing(message_data@, schema.required_fields@),
                warnings@.len() == 0,
        {
            proof {
                assert(schema.required_fields@.skip(i as int)[0] == schema.required_fields@[i as int]);
                assert(schema.required_fields@.skip(i as int).drop_first()
                    =~= schema.required_fields@.skip(i as int + 1));
            }
            if field_index(message_data, schema.required_fields[i].as_str()).is_none() {
                let ghost pre = errors@.map_values(|e: String| e@);
                let m = concat2("Missing required field: ", schema.required_fields[i].as_str());
                proof {
                    assert(m@ =~= "Missing required field: "@ + schema.required_fields@[i as int]@);
                }
                errors.push(m);
                proof {
                    assert(errors@.map_values(|e: String| e@) =~= pre + seq![m@]);
                }
            }
        }
        proof {
            assert(schema.required_fields@.skip(nr as int) =~= Seq::<String>::empty());
        }
        let ghost missing_part = spec_schema_missing(message_data@, schema.required_fields@);
        let nf = message_data.len();
        proof {
            assert(message_data@.skip(0) =~= message_data@);
        }
        for i in 0..nf
            invariant
                nf == message_data@.len(),
                schema == &self.schemas@[si as int],
                si < self.schemas@.len(),
                errors@.map_values(|e: String| e@) == missing_part,
                warnings@.map_values(|w: String| w@) + spec_unknown_warnings(
                    message_data@.skip(i as int),
                    schema.required_fields@,
                    schema.optional_fields@,
                ) =~= spec_unknown_warnings(
                    message_data@,
                    schema.required_fields@,
                    schema.optional_fields@,
                ),
        {
            proof {
                assert(message_data@.skip(i as int)[0] == message_data@[i as int]);
                assert(message_data@.skip(i as int).drop_first() =~= message_data@.skip(
                    i as int + 1,
                ));
            }
            if !names_index(&schema.required_fields, &message_data[i].0) && !names_index(
                &schema.optional_fields,
                &message_data[i].0,
            ) {
                let ghost pre = warnings@.map_values(|w: String| w@);
                let m = concat2("Unknown field: ", message_data[i].0.as_str());
                proof {
                    assert(m@ =~= "Unknown field: "@ + message_data@[i as int].0@);
                }
                warnings.push(m);
                proof {
                    assert(warnings@.map_values(|w: String| w@) =~= pre + seq![m@]);
                }
            }
        }
        proof {
            assert(message_data@.skip(nf as int) =~= Seq::<(String, FieldValue)>::empty());
        }
        let ghost unknown_part = spec_unknown_warnings(
            message_data@,
            schema.required_fields@,
            schema.optional_fields@,
        );
        proof {
            assert(message_data@.skip(0) =~= message_data@);
        }
        for i in 0..nf
            invariant
                nf == message_data@.len(),
                schema == &self.schemas@[si as int],
                si < self.schemas@.len(),
                errors@.map_values(|e: String| e@) + spec_def_errors(
                    message_data@.skip(i as int),
                    schema.field_definitions@,
                ) =~= missing_part + spec_def_errors(message_data@, schema.field_definitions@),
                warnings@.map_values(|w: String| w@) + spec_def_warnings(
                    message_data@.skip(i as int),
                    schema.field_definitions@,
                ) =~= unknown_part + spec_def_warnings(message_data@, schema.field_definitions@),
        {
            proof {
                assert(message_data@.skip(i as int)[0] == message_data@[i as int]);
                assert(message_data@.skip(i as int).drop_first() =~= message_data@.skip(
                    i as int + 1,
                ));
            }
            if let Some(di) = def_index(&schema.field_definitions, &message_data[i].0) {
                let (e, w) = self.validate_field(
                    message_data[i].0.as_str(),
                    &message_data[i].1,
                    &schema.field_definitions[di].1,
                );
                if let Some(em) = e {
                    let ghost pre = errors@.map_values(|ee: String| ee@);
                    errors.push(em);
                    proof {
                        assert(errors@.map_values(|ee: String| ee@) =~= pre + seq![em@]);
                    }
                }
                if let Some(wm) = w {
                    let ghost pre = warnings@.map_values(|ww: String| ww@);
                    warnings.push(wm);
                    proof {
                        assert(warnings@.map_values(|ww: String| ww@) =~= pre + seq![wm@]);
                    }
                }
            }
        }
        proof {
            assert(message_data@.skip(nf as int) =~= Seq::<(String, FieldValue)>::empty());
        }
        let valid = errors.len() == 0;
        let r = SchemaValidationResult {
            valid,
            errors,
            warnings,
            message_type: Some(mts.clone()),
            schema_version: self.schema_version.clone(),
        };
        proof {
            assert(r@ =~~= spec_schema_validate(self.schemas@, message_data@, self.schema_version@));
        }
        r
    }
}

} // verus!
