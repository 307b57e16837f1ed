//! Multi-device synchronization vector validation.
//!
//! Checks a sync scenario's step list: at least three steps, each step an
//! object carrying the step fields and a message object with the common
//! message fields, and a nonce of the expected encoded length.

use vstd::prelude::*;

use crate::text::concat2;
use crate::text::dec_str;
use crate::text::u64_to_string;

verus! {

/// A value inside a sync step, as the validator sees it.
pub enum SyncValue {
    Str(String),
    ObjectVal(Vec<(String, SyncValue)>),
    OtherVal,
}

/// One declared step: an object of named values, or something else.
pub enum SyncStep {
    ObjectStep(Vec<(String, SyncValue)>),
    NotObject,
}

/// A scenario's data: its step list, when one is declared as an array.
pub struct SyncScenarioData {
    pub steps: Option<Vec<SyncStep>>,
}

/// The outcome of validating one sync scenario.
pub struct ValidationResult {
    pub scenario: String,
    pub valid: bool,
    pub errors: Vec<String>,
    pub warnings: Vec<String>,
}

/// Mathematical value of a validation outcome.
#[verifier::ext_equal]
pub ghost struct SyncResultV {
    pub scenario: Seq<char>,
    pub valid: bool,
    pub errors: Seq<Seq<char>>,
    pub warnings: Seq<Seq<char>>,
}

impl View for ValidationResult {
    type V = SyncResultV;

    open spec fn view(&self) -> SyncResultV {
        SyncResultV {
            scenario: self.scenario@,
            valid: self.valid,
            errors: self.errors@.map_values(|e: String| e@),
            warnings: self.warnings@.map_values(|e: String| e@),
        }
    }
}

/// Whether an object carries a value named `k`.
pub open spec fn sync_has(obj: Seq<(String, SyncValue)>, k: Seq<char>) -> bool {
    exists|i: int| 0 <= i < obj.len() && (#[trigger] obj[i]).0@ == k
}

/// First value named `k`, or -1.
pub open spec fn sync_find(obj: Seq<(String, SyncValue)>, k: Seq<char>) -> int
    decreases obj.len(),
{
    if obj.len() == 0 {
        -1
    } else if obj[0].0@ == k {
        0
    } else {
        let rest = sync_find(obj.drop_first(), k);
        if rest == -1 {
            -1
        } else {
            rest + 1
        }
    }
}

pub proof fn lemma_sync_find(obj: Seq<(String, SyncValue)>, k: Seq<char>)
    ensures
        -1 <= sync_find(obj, k) < obj.len(),
        sync_find(obj, k) >= 0 ==> obj[sync_find(obj, k)].0@ == k && forall|i: int|
            0 <= i < sync_find(obj, k) ==> (#[trigger] obj[i]).0@ != k,
        sync_find(obj, k) == -1 ==> forall|i: int| 0 <= i < obj.len() ==> (#[trigger] obj[i]).0@ != k,
        (sync_find(obj, k) >= 0) == sync_has(obj, k),
    decreases obj.len(),
{
    if obj.len() > 0 && obj[0].0@ != k {
        lemma_sync_find(obj.drop_first(), k);
        assert forall|i: int| 1 <= i < obj.len() implies obj.drop_first()[i - 1] == obj[i] by {}
    }
}

/// The required fields of a step, in check order.
pub open spec fn step_fields() -> Seq<Seq<char>> {
    seq!["step"@, "type"@, "from"@, "to"@, "message"@]
}

/// The common fields of a message, in check order.
pub open spec fn message_fields() -> Seq<Seq<char>> {
    seq!["type"@, "version"@, "timestamp"@]
}

/// The missing-field errors of one step object.
pub open spec fn spec_step_missing(
    obj: Seq<(String, SyncValue)>,
    idx1: nat,
    fields: Seq<Seq<char>>,
    what: Seq<char>,
) -> Seq<Seq<char>>
    decreases fields.len(),
{
    if fields.len() == 0 {
        Seq::empty()
    } else {
        (if !sync_has(obj, fields[0]) {
            seq!["Step "@ + dec_str(idx1) + what + fields[0]]
        } else {
            Seq::<Seq<char>>::empty()
        }) + spec_step_missing(obj, idx1, fields.drop_first(), what)
    }
}

/// The errors of one step's message value.
pub open spec fn spec_message_errors(obj: Seq<(String, SyncValue)>, idx1: nat) -> Seq<Seq<char>> {
    let mi = sync_find(obj, "message"@);
    if mi >= 0 {
        match obj[mi].1 {
            SyncValue::ObjectVal(msg) => {
                let missing = spec_step_missing(msg@, idx1, message_fields(), ": Missing message field "@);
                let ni = sync_find(msg@, "nonce"@);
                missing + if ni >= 0 {
                    match msg@[ni].1 {
                        SyncValue::Str(s) => if s@.len() != 24 {
                            seq!["Step "@ + dec_str(idx1) + ": Invalid nonce length"@]
                        } else {
                            Seq::<Seq<char>>::empty()
                        },
                        _ => Seq::<Seq<char>>::empty(),
                    }
                } else {
                    Seq::<Seq<char>>::empty()
                }
            },
            _ => seq!["Step "@ + dec_str(idx1) + ": Message must be object"@],
        }
    } else {
        seq!["Step "@ + dec_str(idx1) + ": Missing message"@]
    }
}

/// The errors of one step.
pub open spec fn spec_step_errors(step: SyncStep, idx1: nat) -> Seq<Seq<char>> {
    match step {
        SyncStep::ObjectStep(obj) => spec_step_missing(obj@, idx1, step_fields(), ": Missing field "@)
            + spec_message_errors(obj@, idx1),
        SyncStep::NotObject => seq!["Step "@ + dec_str(idx1) + ": Must be object"@],
    }
}

/// The errors of every step, in order; step numbering starts at one.
pub open spec fn spec_steps_errors(steps: Seq<SyncStep>, idx1: nat) -> Seq<Seq<char>>
    decreases steps.len(),
{
    if steps.len() == 0 {
        Seq::empty()
    } else {
        spec_step_errors(steps[0], idx1) + spec_steps_errors(steps.drop_first(), idx1 + 1)
    }
}

/// The full outcome of validating one sync scenario: a declared step list
/// of at least three steps, each step an object with the step fields and a
/// well-formed message.
pub open spec fn spec_validate_scenario(name: Seq<char>, data: SyncScenarioData) -> SyncResultV {
    let errors = match data.steps {
        Some(steps) => (if steps@.len() < 3 {
            seq!["Expected at least 3 steps, got "@ + dec_str(steps@.len())]
        } else {
            Seq::<Seq<char>>::empty()
        }) + spec_steps_errors(steps@, 1),
        None => seq!["Missing or invalid steps array"@],
    };
    SyncResultV { scenario: name, valid: errors.len() == 0, errors: errors, warnings: Seq::empty() }
}

fn sync_index(obj: &Vec<(String, SyncValue)>, k: &str) -> (r: Option<usize>)
    ensures
        r matches Some(i) ==> i as int == sync_find(obj@, k@) && i < obj@.len(),
        r is None ==> sync_find(obj@, k@) == -1,
{
    let ks: String = k.to_owned();
    let n = obj.len();
    for i in 0..n
        invariant
            n == obj@.len(),
            ks@ == k@,
            forall|j: int| 0 <= j < i ==> (#[trigger] obj@[j]).0@ != k@,
    {
        if obj[i].0.eq(&ks) {
            proof {
                lemma_sync_find(obj@, k@);
                if sync_find(obj@, k@) != i as int {
                    assert(obj@[sync_find(obj@, k@)].0@ == k@);
                }
            }
            return Some(i);
        }
    }
    proof {
        lemma_sync_find(obj@, k@);
        if sync_find(obj@, k@) >= 0 {
            assert(obj@[sync_find(obj@, k@)].0@ == k@);
        }
    }
    None
}

/// The multi-device synchronization validator.
pub struct MultiDeviceSyncValidator;

impl MultiDeviceSyncValidator {
    /// A fresh validator.
    pub fn new() -> MultiDeviceSyncValidator {
        MultiDeviceSyncValidator
    }

    /// Validate one sync scenario; the outcome is exactly
    /// `spec_validate_scenario` of the scenario's data.
    pub fn validate_scenario(&self, scenario_name: &str, scenario_data: &SyncScenarioData) -> (r:
        ValidationResult)
        ensures
            r@ == spec_validate_scenario(scenario_name@, *scenario_data),
    {
        proof {
            reveal_strlit("Missing or invalid steps array");
            reveal_strlit("Expected at least 3 steps, got ");
            reveal_strlit("Step ");
            reveal_strlit(": Missing field ");
            reveal_strlit(": Missing message field ");
            reveal_strlit(": Invalid nonce length");
            reveal_strlit(": Message must be object");
            reveal_strlit(": Missing message");
            reveal_strlit(": Must be object");
            reveal_strlit("message");
            reveal_strlit("nonce");
        }
        let mut errors: Vec<String> = Vec::new();
        match &scenario_data.steps {
            None => {
                errors.push("Missing or invalid steps array".to_owned());
            },
            Some(steps) => {
                let n = steps.len();
                if n < 3 {
                    let m = concat2("Expected at least 3 steps, got ", u64_to_string(n as u64).as_str());
                    proof {
                        assert(m@ =~= "Expected at least 3 steps, got "@ + dec_str(steps@.len()));
                    }
                    errors.push(m);
                }
                let ghost head: Seq<Seq<char>> = if steps@.len() < 3 {
                    seq!["Expected at least 3 steps, got "@ + dec_str(steps@.len())]
                } else {
                    Seq::<Seq<char>>::empty()
                };
                proof {
                    assert(errors@.map_values(|e: String| e@) =~= head);
                    assert(steps@.skip(0) =~= steps@);
                    assert(spec_steps_errors(steps@.skip(0), 0 as nat + 1) == spec_steps_errors(
                        steps@,
                        1,
                    ));
                    assert(errors@.map_values(|e: String| e@) + spec_steps_errors(
                        steps@.skip(0),
                        0 as nat + 1,
                    ) =~= head + spec_steps_errors(steps@, 1));
                }
                for i in 0..n
                    invariant
                        n == steps@.len(),
                        errors@.map_values(|e: String| e@) + spec_steps_errors(
                            steps@.skip(i as int),
                            i as nat + 1,
                        ) =~= head + spec_steps_errors(steps@, 1),
                {
                    proof {
                        assert(steps@.skip(i as int)[0] == steps@[i as int]);
                        assert(steps@.skip(i as int).drop_first() =~= steps@.skip(i as int + 1));
                    }
                    let ghost pre = errors@.map_values(|e: String| e@);
                    self.check_step(&steps[i], i, &mut errors);
                    proof {
                        assert(errors@.map_values(|e: String| e@) =~= pre + spec_step_errors(
                            steps@[i as int],
                            i as nat + 1,
                        ));
                    }
                }
                proof {
                    assert(steps@.skip(n as int) =~= Seq::<SyncStep>::empty());
                }
            },
        }
        let valid = errors.len() == 0;
        let r = ValidationResult {
            scenario: scenario_name.to_owned(),
            valid,
            errors,
            warnings: Vec::new(),
        };
        proof {
            assert(r@ =~~= spec_validate_scenario(scenario_name@, *scenario_data));
        }
        r
    }

    /// Check one step; its errors are appended in order.
    fn check_step(&self, step: &SyncStep, i: usize, errors: &mut Vec<String>)
        requires
            i < usize::MAX,
        ensures
            final(errors)@.map_values(|e: String| e@) == old(errors)@.map_values(|e: String| e@)
                + spec_step_errors(*step, i as nat + 1),
    {
        proof {
            reveal_strlit("step");
            reveal_strlit("type");
            reveal_strlit("from");
            reveal_strlit("to");
            reveal_strlit("message");
            reveal_strlit("version");
            reveal_strlit("timestamp");
            reveal_strlit("nonce");
        }
        let ghost e0 = errors@.map_values(|e: String| e@);
        let idx1 = u64_to_string(i as u64 + 1);
        let prefix = concat2("Step ", idx1.as_str());
        proof {
            assert(prefix@ =~= "Step "@ + dec_str(i as nat + 1));
        }
        match step {
            SyncStep::NotObject => {
                let m = concat2(prefix.as_str(), ": Must be object");
                proof {
                    assert(m@ =~= "Step "@ + dec_str(i as nat + 1) + ": Must be object"@);
                }
                errors.push(m);
                proof {
                    assert(errors@.map_values(|e: String| e@) =~= e0 + spec_step_errors(
                        *step,
                        i as nat + 1,
                    ));
                }
            },
            SyncStep::ObjectStep(obj) => {
                let mut required: Vec<&'static str> = Vec::new();
                required.push("step");
                required.push("type");
                required.push("from");
                required.push("to");
                required.push("message");
                proof {
                    assert(required@.map_values(|f: &str| f@) =~= step_fields());
                }
                push_missing(obj, i, &required, ": Missing field ", errors);
                let ghost after_missing = errors@.map_values(|e: String| e@);
                match sync_index(obj, "message") {
                    Some(mi) => {
                        match &obj[mi].1 {
                            SyncValue::ObjectVal(msg) => {
                                let mut commons: Vec<&'static str> = Vec::new();
                                commons.push("type");
                                commons.push("version");
                                commons.push("timestamp");
                                proof {
                                    assert(commons@.map_values(|f: &str| f@) =~= message_fields());
                                }
                                push_missing(msg, i, &commons, ": Missing message field ", errors);
                                if let Some(ni) = sync_index(msg, "nonce") {
                                    if let SyncValue::Str(nv) = &msg[ni].1 {
                                        if nv.as_str().unicode_len() != 24 {
                                            let ghost pre = errors@.map_values(|e: String| e@);
                                            let m = concat2(prefix.as_str(), ": Invalid nonce length");
                                            proof {
                                                assert(m@ =~= "Step "@ + dec_str(i as nat + 1)
                                                    + ": Invalid nonce length"@);
                                            }
                                            errors.push(m);
                                            proof {
                                                assert(errors@.map_values(|e: String| e@) =~= pre
                                                    + seq![m@]);
                                            }
                                        }
                                    }
                                }
                            },
                            _ => {
                                let ghost pre = errors@.map_values(|e: String| e@);
                                let m = concat2(prefix.as_str(), ": Message must be object");
                                proof {
                                    assert(m@ =~= "Step "@ + dec_str(i as nat + 1)
                                        + ": Message must be object"@);
                                }
                                errors.push(m);
                                proof {
                                    assert(errors@.map_values(|e: String| e@) =~= pre + seq![m@]);
                                }
                            },
                        }
                    },
                    None => {
                        let ghost pre = errors@.map_values(|e: String| e@);
                        let m = concat2(prefix.as_str(), ": Missing message");
                        proof {
                            assert(m@ =~= "Step "@ + dec_str(i as nat + 1) + ": Missing message"@);
                        }
                        errors.push(m);
                        proof {
                            assert(errors@.map_values(|e: String| e@) =~= pre + seq![m@]);
                        }
                    },
                }
                proof {
                    assert(errors@.map_values(|e: String| e@) =~= e0 + spec_step_errors(
                        *step,
                        i as nat + 1,
                    ));
                }
            },
        }
    }
}

/// Append a missing-field error for every named field the object lacks.
fn push_missing(
    obj: &Vec<(String, SyncValue)>,
    i: usize,
    names: &Vec<&'static str>,
    what: &str,
    errors: &mut Vec<String>,
)
    requires
        i < usize::MAX,
    ensures
        final(errors)@.map_values(|e: String| e@) == old(errors)@.map_values(|e: String| e@)
            + spec_step_missing(
            obj@,
            i as nat + 1,
            names@.map_values(|f: &str| f@),
            what@,
        ),
{
    let ghost e0 = errors@.map_values(|e: String| e@);
    let ghost views = names@.map_values(|f: &str| f@);
    let n = names.len();
    proof {
        assert(views.skip(0) =~= views);
    }
    for f in 0..n
        invariant
            i < usize::MAX,
            n == names@.len() == views.len(),
            views == names@.map_values(|ff: &str| ff@),
            forall|j: int| 0 <= j < n ==> (#[trigger] names@[j])@ == views[j],
            errors@.map_values(|e: String| e@) + spec_step_missing(
                obj@,
                i as nat + 1,
                views.skip(f as int),
                what@,
            ) =~= e0 + spec_step_missing(obj@, i as nat + 1, views, what@),
    {
        proof {
            assert(views.skip(f as int)[0] == views[f as int]);
            assert(views.skip(f as int).drop_first() =~= views.skip(f as int + 1));
        }
        match sync_index(obj, names[f]) {
            Some(fi) => {
                proof {
                    lemma_sync_find(obj@, views[f as int]);
                    assert(obj@[fi as int].0@ == views[f as int]);
                    assert(sync_has(obj@, views[f as int]));
                }
            },
            None => {
                proof {
                    lemma_sync_find(obj@, views[f as int]);
                }
                let ghost pre = errors@.map_values(|e: String| e@);
                let idx1 = u64_to_string(i as u64 + 1);
                let p1 = concat2("Step ", idx1.as_str());
                let p2 = concat2(p1.as_str(), what);
                let m = concat2(p2.as_str(), names[f]);
                proof {
                    assert(m@ =~= "Step "@ + dec_str(i as nat + 1) + what@ + views[f as int]);
                }
                errors.push(m);
                proof {
                    assert(errors@.map_values(|e: String| e@) =~= pre + seq![m@]);
                }
            },
        }
    }
    proof {
        assert(views.skip(n as int) =~= Seq::<Seq<char>>::empty());
    }
}

} // verus!
