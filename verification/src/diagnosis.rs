//! Which recorded results need attention, and what a diagnosis concludes once
//! waivers are applied.
use vstd::prelude::*;
use crate::evidence::{EvidenceValidity, VerificationStatus};
use crate::scenario::{ChildEvidenceKind, ChildEvidence, ParentAssessment};
use crate::text::own;

verus! {

/// A result needs attention unless it passed on current evidence.
pub open spec fn attention(status: VerificationStatus, validity: EvidenceValidity) -> bool {
    status != VerificationStatus::Pass || validity != EvidenceValidity::Current
}

/// Whether the latest evidence of a definition makes a finding: none at all, or a
/// result that needs attention.
pub fn needs_attention(latest: &Option<ChildEvidence>) -> (r: bool)
    ensures
        r == match latest {
            Some(e) => attention(e.status, e.validity),
            None => true,
        },
{
    match latest {
        Some(e) => e.status != VerificationStatus::Pass || e.validity != EvidenceValidity::Current,
        None => true,
    }
}

/// The kind of finding a definition of each evidence kind makes.
pub open spec fn finding_kind(k: ChildEvidenceKind) -> Seq<char> {
    match k {
        ChildEvidenceKind::Relational => "relational"@,
        ChildEvidenceKind::Scenario => "scenario"@,
        ChildEvidenceKind::NativeTest => "native_test"@,
        ChildEvidenceKind::Model => "model"@,
        ChildEvidenceKind::ModelValidation => "model_validation"@,
        ChildEvidenceKind::Correspondence => "correspondence"@,
    }
}

pub fn finding_kind_name(k: ChildEvidenceKind) -> (r: String)
    ensures
        r@ == finding_kind(k),
{
    match k {
        ChildEvidenceKind::Relational => own("relational"),
        ChildEvidenceKind::Scenario => own("scenario"),
        ChildEvidenceKind::NativeTest => own("native_test"),
        ChildEvidenceKind::Model => own("model"),
        ChildEvidenceKind::ModelValidation => own("model_validation"),
        ChildEvidenceKind::Correspondence => own("correspondence"),
    }
}

/// The finding identifier of a definition: the prefix of its kind, then its own
/// identifier.
pub fn finding_id(k: ChildEvidenceKind, definition_id: &str) -> (r: String)
    ensures
        r@ == crate::scenario::kind_prefix(k) + definition_id@,
{
    let p: &str = match k {
        ChildEvidenceKind::Relational => "",
        ChildEvidenceKind::Scenario => "SCENARIO:",
        ChildEvidenceKind::NativeTest => "NATIVE-TEST:",
        ChildEvidenceKind::Model => "MODEL:",
        ChildEvidenceKind::ModelValidation => "MODEL-VALIDATION:",
        ChildEvidenceKind::Correspondence => "CORRESPONDENCE:",
    };
    proof {
        reveal_strlit("");
        assert(k == ChildEvidenceKind::Relational ==> p@ =~= Seq::<char>::empty());
    }
    crate::text::cat(p, definition_id)
}

/// The indices of a parent's children that need attention: not a pass on current
/// evidence.
pub fn children_requiring_attention(parent: &ParentAssessment) -> (r: Vec<usize>)
    ensures
        forall|i: int| 0 <= i < r@.len() ==> r@[i] < parent.children@.len(),
        forall|i: int, j: int| 0 <= i < j < r@.len() ==> r@[i] < r@[j],
        forall|k: int| 0 <= k < parent.children@.len() ==> (r@.contains(k as usize) <==> {
            let c = #[trigger] parent.children@[k];
            c.status != VerificationStatus::Pass || c.validity != Some(EvidenceValidity::Current)
        }),
{
    let cs = &parent.children;
    let mut r: Vec<usize> = Vec::new();
    let mut k: usize = 0;
    while k < cs.len()
        invariant
            k <= cs@.len(),
            cs@ == parent.children@,
            forall|i: int| 0 <= i < r@.len() ==> r@[i] < k,
            forall|i: int, j: int| 0 <= i < j < r@.len() ==> r@[i] < r@[j],
            forall|q: int| 0 <= q < cs@.len() ==> (r@.contains(q as usize) <==> (q < k && {
                let c = #[trigger] cs@[q];
                c.status != VerificationStatus::Pass || c.validity != Some(EvidenceValidity::Current)
            })),
        decreases cs.len() - k,
    {
        let c = &cs[k];
        let current = match c.validity {
            Some(EvidenceValidity::Current) => true,
            _ => false,
        };
        if c.status != VerificationStatus::Pass || !current {
            let ghost r0 = r@;
            r.push(k);
            proof {
                assert forall|q: int| 0 <= q < cs@.len() implies (r@.contains(q as usize) <==> (q < k + 1 && {
                    let c = #[trigger] cs@[q];
                    c.status != VerificationStatus::Pass || c.validity != Some(EvidenceValidity::Current)
                })) by {
                    if r@.contains(q as usize) && q as usize != k {
                        let i = choose|i: int| 0 <= i < r@.len() && r@[i] == q as usize;
                        assert(r0[i] == q as usize);
                        assert(r0.contains(q as usize));
                    }
                    if q == k {
                        assert(r@[r@.len() - 1] == k);
                    }
                    if r0.contains(q as usize) {
                        let i = choose|i: int| 0 <= i < r0.len() && r0[i] == q as usize;
                        assert(r@[i] == q as usize);
                    }
                };
            }
        } else {
            proof {
                assert forall|q: int| 0 <= q < cs@.len() implies (r@.contains(q as usize) <==> (q < k + 1 && {
                    let c = #[trigger] cs@[q];
                    c.status != VerificationStatus::Pass || c.validity != Some(EvidenceValidity::Current)
                })) by {
                    if r@.contains(q as usize) {
                        let i = choose|i: int| 0 <= i < r@.len() && r@[i] == q as usize;
                        assert(r@[i] < k);
                    }
                };
            }
        }
        k = k + 1;
    }
    r
}

/// What a diagnosis concludes.
#[derive(Debug, Clone, Copy, PartialEq, Eq, Structural)]
pub enum DiagnosisResult {
    Pass,
    WaivedAttention,
    Attention,
}

/// The conclusion: a pass when nothing was found and the policy raised nothing;
/// accepted attention when every finding is waived and the policy raised nothing;
/// attention otherwise. Only an accepted diagnosis exits with 0.
pub open spec fn diagnosis(finding_count: nat, unwaived: nat, policy_diagnostics: nat) -> (DiagnosisResult, i32) {
    let clean = policy_diagnostics == 0;
    let accepted = unwaived == 0 && clean;
    let result = if finding_count == 0 && clean {
        DiagnosisResult::Pass
    } else if accepted {
        DiagnosisResult::WaivedAttention
    } else {
        DiagnosisResult::Attention
    };
    (result, if accepted { 0i32 } else { 1i32 })
}

pub fn diagnosis_outcome(finding_count: usize, unwaived_finding_count: usize, policy_diagnostic_count: usize) -> (r: (DiagnosisResult, i32))
    ensures
        r == diagnosis(finding_count as nat, unwaived_finding_count as nat, policy_diagnostic_count as nat),
{
    let clean = policy_diagnostic_count == 0;
    let accepted = unwaived_finding_count == 0 && clean;
    let result = if finding_count == 0 && clean {
        DiagnosisResult::Pass
    } else if accepted {
        DiagnosisResult::WaivedAttention
    } else {
        DiagnosisResult::Attention
    };
    (result, if accepted { 0 } else { 1 })
}

/// The text a diagnosis result is reported as.
pub fn diagnosis_name(r: DiagnosisResult) -> (s: String)
    ensures
        s@ == match r {
            DiagnosisResult::Pass => "PASS"@,
            DiagnosisResult::WaivedAttention => "WAIVED_ATTENTION"@,
            DiagnosisResult::Attention => "ATTENTION"@,
        },
{
    match r {
        DiagnosisResult::Pass => own("PASS"),
        DiagnosisResult::WaivedAttention => own("WAIVED_ATTENTION"),
        DiagnosisResult::Attention => own("ATTENTION"),
    }
}

/// Waivers never turn attention into a pass: a diagnosis with findings does not
/// pass, and one exits with 0 only when every finding is waived.
pub proof fn law_waivers_never_pass_findings(finding_count: nat, unwaived: nat, policy_diagnostics: nat)
    ensures
        finding_count > 0 ==> diagnosis(finding_count, unwaived, policy_diagnostics).0 != DiagnosisResult::Pass,
        diagnosis(finding_count, unwaived, policy_diagnostics).1 == 0 ==> unwaived == 0 && policy_diagnostics == 0,
{
}

} // verus!
