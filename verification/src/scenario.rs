//! Parent obligations that pass only when every required child obligation passes on
//! current evidence, and the descriptions of failure scenarios.
use vstd::prelude::*;
use crate::evidence::{EvidenceValidity, VerificationStatus};
use crate::project::EvidenceId;
use crate::adr::strs;
use crate::text::{own, str_eq};

verus! {

/// Where a scenario injects its fault.
#[derive(Debug, Clone, Copy, PartialEq, Eq, Structural)]
pub enum FaultPoint {
    BeforeMeiliRequest,
    MeiliRequestTimeout,
    AfterMeiliAcceptedBeforeResponse,
    AfterTaskUidBeforeLedgerTransaction,
    AfterLedgerInsertBeforeProcessedAt,
    BeforeLedgerTransactionCommit,
    AfterLedgerTransactionCommit,
    BeforeTaskStatusUpdate,
    BeforeWatermarkAdvance,
    ConcurrentFetchBarrier,
    NoFault,
}

/// What a scenario covers and what it does not.
#[derive(Debug)]
pub struct ScenarioCoverage {
    pub fault_class: String,
    pub fault_point: FaultPoint,
    pub state_space_scope: String,
    pub concurrency_scope: String,
    pub covered: Vec<String>,
    pub not_covered: Vec<String>,
}

/// The root a scenario input is relative to.
#[derive(Debug, Clone, Copy, PartialEq, Eq, Structural)]
pub enum InputRoot {
    Project,
    Specification,
}

/// A file a scenario result depends on.
#[derive(Debug)]
pub struct ScenarioInput {
    pub root: InputRoot,
    pub path: String,
}

/// The command that runs a scenario.
#[derive(Debug)]
pub struct ScenarioCommand {
    pub program: String,
    pub args: Vec<String>,
    pub timeout_ms: u64,
    pub runner_version: String,
}

/// A child obligation a parent requires, and the kind of evidence it is met by.
#[derive(Debug)]
pub struct RequiredChild {
    pub obligation_id: String,
    pub evidence_kind: ChildEvidenceKind,
}

/// The kinds of evidence a child obligation can have.
#[derive(Debug, Clone, Copy, PartialEq, Eq, Structural)]
pub enum ChildEvidenceKind {
    Relational,
    Scenario,
    NativeTest,
    Model,
    ModelValidation,
    Correspondence,
}

/// A claim that holds when all its required children hold.
#[derive(Debug)]
pub struct ParentObligation {
    pub id: String,
    pub claim: String,
    pub authority: String,
    pub required_children: Vec<RequiredChild>,
    pub source: String,
}

/// The status of one child obligation and its latest evidence.
#[derive(Debug)]
pub struct ChildStatus {
    pub obligation_id: String,
    pub status: VerificationStatus,
    pub validity: Option<EvidenceValidity>,
    pub evidence_id: Option<EvidenceId>,
}

/// The status of a parent obligation from its children.
#[derive(Debug)]
pub struct ParentAssessment {
    pub parent_id: String,
    pub claim: String,
    pub authority: String,
    pub status: VerificationStatus,
    pub children: Vec<ChildStatus>,
}

pub open spec fn requires_child(p: ParentObligation, id: Seq<char>) -> bool {
    exists|i: int| 0 <= i < p.required_children@.len() && (#[trigger] p.required_children@[i]).obligation_id@ == id
}

pub open spec fn supplies_child(cs: Seq<ChildStatus>, id: Seq<char>) -> bool {
    exists|i: int| 0 <= i < cs.len() && (#[trigger] cs[i]).obligation_id@ == id
}

pub open spec fn any_child(cs: Seq<ChildStatus>, f: spec_fn(ChildStatus) -> bool) -> bool {
    exists|i: int| 0 <= i < cs.len() && f(#[trigger] cs[i])
}

pub open spec fn undecided(s: VerificationStatus) -> bool {
    s == VerificationStatus::Unverified || s == VerificationStatus::Unknown || s == VerificationStatus::NotApplicable
}

/// The parent's status: an erroring child makes it an error; else a child failing on
/// current evidence makes it fail; else a child on stale evidence makes it stale; else
/// a missing or undecided child leaves it unverified; it passes only when it requires
/// children, exactly the required ones are supplied, and each passed on current
/// evidence.
pub open spec fn aggregate_status(p: ParentObligation, cs: Seq<ChildStatus>) -> VerificationStatus {
    if any_child(cs, |c: ChildStatus| c.status == VerificationStatus::Error) {
        VerificationStatus::Error
    } else if any_child(cs, |c: ChildStatus| c.status == VerificationStatus::Fail && c.validity == Some(EvidenceValidity::Current)) {
        VerificationStatus::Fail
    } else if any_child(cs, |c: ChildStatus| c.validity == Some(EvidenceValidity::Stale)) {
        VerificationStatus::Stale
    } else if (exists|id: Seq<char>| requires_child(p, id) && !supplies_child(cs, id))
        || any_child(cs, |c: ChildStatus| undecided(c.status)) {
        VerificationStatus::Unverified
    } else if p.required_children@.len() > 0
        && (forall|id: Seq<char>| #[trigger] requires_child(p, id) <==> supplies_child(cs, id))
        && (forall|i: int| 0 <= i < cs.len() ==> (#[trigger] cs[i]).status == VerificationStatus::Pass
            && cs[i].validity == Some(EvidenceValidity::Current)) {
        VerificationStatus::Pass
    } else {
        VerificationStatus::Unverified
    }
}

/// How a parent follows its children: an erroring child makes it an error; else a
/// child that failed on current evidence makes it fail; else a child on stale
/// evidence makes it stale; and it passes only when it requires children, the
/// children supplied are exactly the required ones, and each passed on current
/// evidence.
pub proof fn law_parent_follows_children(p: ParentObligation, cs: Seq<ChildStatus>)
    ensures
        (exists|i: int| 0 <= i < cs.len() && (#[trigger] cs[i]).status == VerificationStatus::Error)
            ==> aggregate_status(p, cs) == VerificationStatus::Error,
        (forall|i: int| 0 <= i < cs.len() ==> (#[trigger] cs[i]).status != VerificationStatus::Error)
            && (exists|i: int| 0 <= i < cs.len() && (#[trigger] cs[i]).status == VerificationStatus::Fail
                && cs[i].validity == Some(EvidenceValidity::Current))
            ==> aggregate_status(p, cs) == VerificationStatus::Fail,
        (forall|i: int| 0 <= i < cs.len() ==> (#[trigger] cs[i]).status != VerificationStatus::Error
            && !(cs[i].status == VerificationStatus::Fail && cs[i].validity == Some(EvidenceValidity::Current)))
            && (exists|i: int| 0 <= i < cs.len() && (#[trigger] cs[i]).validity == Some(EvidenceValidity::Stale))
            ==> aggregate_status(p, cs) == VerificationStatus::Stale,
        aggregate_status(p, cs) == VerificationStatus::Pass ==> p.required_children@.len() > 0
            && (forall|i: int| 0 <= i < cs.len() ==> (#[trigger] cs[i]).status == VerificationStatus::Pass
                && cs[i].validity == Some(EvidenceValidity::Current))
            && (forall|id: Seq<char>| #[trigger] requires_child(p, id) <==> supplies_child(cs, id)),
{
    if exists|i: int| 0 <= i < cs.len() && (#[trigger] cs[i]).status == VerificationStatus::Error {
        let i = choose|i: int| 0 <= i < cs.len() && (#[trigger] cs[i]).status == VerificationStatus::Error;
        assert(any_child(cs, |c: ChildStatus| c.status == VerificationStatus::Error)) by {
            let f = |c: ChildStatus| c.status == VerificationStatus::Error;
            assert(f(cs[i]));
        };
    }
    if exists|i: int| 0 <= i < cs.len() && (#[trigger] cs[i]).status == VerificationStatus::Fail
        && cs[i].validity == Some(EvidenceValidity::Current) {
        let i = choose|i: int| 0 <= i < cs.len() && (#[trigger] cs[i]).status == VerificationStatus::Fail
            && cs[i].validity == Some(EvidenceValidity::Current);
        let f = |c: ChildStatus| c.status == VerificationStatus::Fail && c.validity == Some(EvidenceValidity::Current);
        assert(f(cs[i]));
        assert(any_child(cs, f));
    }
    if exists|i: int| 0 <= i < cs.len() && (#[trigger] cs[i]).validity == Some(EvidenceValidity::Stale) {
        let i = choose|i: int| 0 <= i < cs.len() && (#[trigger] cs[i]).validity == Some(EvidenceValidity::Stale);
        let f = |c: ChildStatus| c.validity == Some(EvidenceValidity::Stale);
        assert(f(cs[i]));
        assert(any_child(cs, f));
    }
    if forall|i: int| 0 <= i < cs.len() ==> (#[trigger] cs[i]).status != VerificationStatus::Error {
        let f = |c: ChildStatus| c.status == VerificationStatus::Error;
        assert(!any_child(cs, f)) by {
            if any_child(cs, f) {
                let i = choose|i: int| 0 <= i < cs.len() && f(#[trigger] cs[i]);
                assert(cs[i].status != VerificationStatus::Error);
            }
        };
        if forall|i: int| 0 <= i < cs.len() ==> !((#[trigger] cs[i]).status == VerificationStatus::Fail
            && cs[i].validity == Some(EvidenceValidity::Current)) {
            let g = |c: ChildStatus| c.status == VerificationStatus::Fail && c.validity == Some(EvidenceValidity::Current);
            assert(!any_child(cs, g)) by {
                if any_child(cs, g) {
                    let i = choose|i: int| 0 <= i < cs.len() && g(#[trigger] cs[i]);
                    assert(!(cs[i].status == VerificationStatus::Fail && cs[i].validity == Some(EvidenceValidity::Current)));
                }
            };
        }
    }
}

fn requires_child_exec(p: &ParentObligation, id: &str) -> (r: bool)
    ensures
        r == requires_child(*p, id@),
{
    let rs = &p.required_children;
    let mut i: usize = 0;
    while i < rs.len()
        invariant
            i <= rs@.len(),
            rs@ == p.required_children@,
            forall|j: int| 0 <= j < i ==> (#[trigger] rs@[j]).obligation_id@ != id@,
        decreases rs.len() - i,
    {
        if str_eq(rs[i].obligation_id.as_str(), id) {
            return true;
        }
        i = i + 1;
    }
    false
}

fn supplies_child_exec(cs: &Vec<ChildStatus>, id: &str) -> (r: bool)
    ensures
        r == supplies_child(cs@, id@),
{
    let mut i: usize = 0;
    while i < cs.len()
        invariant
            i <= cs@.len(),
            forall|j: int| 0 <= j < i ==> (#[trigger] cs@[j]).obligation_id@ != id@,
        decreases cs.len() - i,
    {
        if str_eq(cs[i].obligation_id.as_str(), id) {
            return true;
        }
        i = i + 1;
    }
    false
}

fn clone_child(c: &ChildStatus) -> (r: ChildStatus)
    ensures
        r.obligation_id@ == c.obligation_id@,
        r.status == c.status,
        r.validity == c.validity,
        r.evidence_id == c.evidence_id,
{
    ChildStatus {
        obligation_id: own(c.obligation_id.as_str()),
        status: c.status,
        validity: c.validity,
        evidence_id: match &c.evidence_id {
            Some(e) => Some(e.clone()),
            None => None,
        },
    }
}

/// The assessment of a parent obligation from the statuses of its children; the
/// children are kept as given.
pub fn aggregate(parent: &ParentObligation, children: Vec<ChildStatus>) -> (r: ParentAssessment)
    ensures
        r.status == aggregate_status(*parent, children@),
        r.parent_id@ == parent.id@,
        r.claim@ == parent.claim@,
        r.authority@ == parent.authority@,
        r.children@ == children@,
{
    let cs = &children;
    let mut error = false;
    let mut fail = false;
    let mut stale = false;
    let mut undecided_child = false;
    let mut all_pass = true;
    let mut i: usize = 0;
    while i < cs.len()
        invariant
            i <= cs@.len(),
            error == exists|j: int| 0 <= j < i && (#[trigger] cs@[j]).status == VerificationStatus::Error,
            fail == exists|j: int| 0 <= j < i && (#[trigger] cs@[j]).status == VerificationStatus::Fail
                && cs@[j].validity == Some(EvidenceValidity::Current),
            stale == exists|j: int| 0 <= j < i && (#[trigger] cs@[j]).validity == Some(EvidenceValidity::Stale),
            undecided_child == exists|j: int| 0 <= j < i && undecided((#[trigger] cs@[j]).status),
            all_pass == forall|j: int| 0 <= j < i ==> (#[trigger] cs@[j]).status == VerificationStatus::Pass
                && cs@[j].validity == Some(EvidenceValidity::Current),
        decreases cs.len() - i,
    {
        let c = &cs[i];
        let current = match c.validity {
            Some(EvidenceValidity::Current) => true,
            _ => false,
        };
        let is_stale = match c.validity {
            Some(EvidenceValidity::Stale) => true,
            _ => false,
        };
        match c.status {
            VerificationStatus::Error => {
                error = true;
            },
            VerificationStatus::Fail => {
                if current {
                    fail = true;
                }
            },
            VerificationStatus::Unverified | VerificationStatus::Unknown | VerificationStatus::NotApplicable => {
                undecided_child = true;
            },
            _ => {},
        }
        if is_stale {
            stale = true;
        }
        if !(c.status == VerificationStatus::Pass && current) {
            all_pass = false;
        }
        i = i + 1;
    }
    let rs = &parent.required_children;
    let mut missing = false;
    let mut i: usize = 0;
    while i < rs.len()
        invariant
            i <= rs@.len(),
            rs@ == parent.required_children@,
            missing == exists|j: int| 0 <= j < i && !supplies_child(cs@, (#[trigger] rs@[j]).obligation_id@),
        decreases rs.len() - i,
    {
        if !supplies_child_exec(cs, rs[i].obligation_id.as_str()) {
            missing = true;
        }
        i = i + 1;
    }
    let mut extra = false;
    let mut i: usize = 0;
    while i < cs.len()
        invariant
            i <= cs@.len(),
            extra == exists|j: int| 0 <= j < i && !requires_child(*parent, (#[trigger] cs@[j]).obligation_id@),
        decreases cs.len() - i,
    {
        if !requires_child_exec(parent, cs[i].obligation_id.as_str()) {
            extra = true;
        }
        i = i + 1;
    }
    proof {
        assert(missing == exists|id: Seq<char>| requires_child(*parent, id) && !supplies_child(cs@, id)) by {
            if exists|id: Seq<char>| requires_child(*parent, id) && !supplies_child(cs@, id) {
                let id = choose|id: Seq<char>| requires_child(*parent, id) && !supplies_child(cs@, id);
                let j = choose|j: int| 0 <= j < rs@.len() && (#[trigger] rs@[j]).obligation_id@ == id;
                assert(!supplies_child(cs@, rs@[j].obligation_id@));
            }
            if missing {
                let j = choose|j: int| 0 <= j < rs@.len() && !supplies_child(cs@, (#[trigger] rs@[j]).obligation_id@);
                assert(requires_child(*parent, rs@[j].obligation_id@));
            }
        };
        assert(!missing && !extra ==> forall|id: Seq<char>| #[trigger] requires_child(*parent, id) <==> supplies_child(cs@, id)) by {
            if !missing && !extra {
                assert forall|id: Seq<char>| #[trigger] requires_child(*parent, id) <==> supplies_child(cs@, id) by {
                    if supplies_child(cs@, id) {
                        let j = choose|j: int| 0 <= j < cs@.len() && (#[trigger] cs@[j]).obligation_id@ == id;
                        assert(requires_child(*parent, cs@[j].obligation_id@));
                    }
                };
            }
        };
        assert(extra ==> !forall|id: Seq<char>| #[trigger] requires_child(*parent, id) <==> supplies_child(cs@, id)) by {
            if extra {
                let j = choose|j: int| 0 <= j < cs@.len() && !requires_child(*parent, (#[trigger] cs@[j]).obligation_id@);
                assert(supplies_child(cs@, cs@[j].obligation_id@));
            }
        };
    }
    let status = if error {
        VerificationStatus::Error
    } else if fail {
        VerificationStatus::Fail
    } else if stale {
        VerificationStatus::Stale
    } else if missing || undecided_child {
        VerificationStatus::Unverified
    } else if rs.len() > 0 && !extra && all_pass {
        VerificationStatus::Pass
    } else {
        VerificationStatus::Unverified
    };
    ParentAssessment {
        parent_id: own(parent.id.as_str()),
        claim: own(parent.claim.as_str()),
        authority: own(parent.authority.as_str()),
        status,
        children,
    }
}

// ---------------------------------------------------------------------------
// Parents from the latest evidence of their children
// ---------------------------------------------------------------------------

/// The latest assessed evidence for a child obligation.
#[derive(Debug)]
pub struct ChildEvidence {
    pub status: VerificationStatus,
    pub validity: EvidenceValidity,
    pub evidence_id: EvidenceId,
}

/// The prefix a child's obligation identifier carries before the identifier of its
/// definition (none for the relational obligation).
pub open spec fn kind_prefix(k: ChildEvidenceKind) -> Seq<char> {
    match k {
        ChildEvidenceKind::Relational => Seq::empty(),
        ChildEvidenceKind::Scenario => "SCENARIO:"@,
        ChildEvidenceKind::NativeTest => "NATIVE-TEST:"@,
        ChildEvidenceKind::Model => "MODEL:"@,
        ChildEvidenceKind::ModelValidation => "MODEL-VALIDATION:"@,
        ChildEvidenceKind::Correspondence => "CORRESPONDENCE:"@,
    }
}

/// The identifier of the definition a required child names: its obligation
/// identifier without the prefix of its kind, where it has one.
pub open spec fn definition_id_of(c: RequiredChild) -> Seq<char> {
    let p = kind_prefix(c.evidence_kind);
    if crate::text::occurs_at(c.obligation_id@, 0, p) {
        c.obligation_id@.subrange(p.len() as int, c.obligation_id@.len() as int)
    } else {
        c.obligation_id@
    }
}

fn kind_prefix_exec(k: ChildEvidenceKind) -> (r: &'static str)
    ensures
        r@ == kind_prefix(k),
{
    proof {
        reveal_strlit("");
    }
    match k {
        ChildEvidenceKind::Relational => {
            proof {
                assert(""@ =~= Seq::<char>::empty());
            }
            ""
        },
        ChildEvidenceKind::Scenario => "SCENARIO:",
        ChildEvidenceKind::NativeTest => "NATIVE-TEST:",
        ChildEvidenceKind::Model => "MODEL:",
        ChildEvidenceKind::ModelValidation => "MODEL-VALIDATION:",
        ChildEvidenceKind::Correspondence => "CORRESPONDENCE:",
    }
}

/// The identifier of the definition whose evidence a required child takes.
pub fn child_definition_id(c: &RequiredChild) -> (r: String)
    ensures
        r@ == definition_id_of(*c),
{
    let p = kind_prefix_exec(c.evidence_kind);
    let cs = crate::text::chars_of(c.obligation_id.as_str());
    let pc = crate::text::chars_of(p);
    if crate::text::occurs_at_exec(&cs, 0, p) {
        crate::text::slice_string(&cs, pc.len(), cs.len())
    } else {
        own(c.obligation_id.as_str())
    }
}

/// `s` is the status of required child `c` given its latest evidence: that
/// evidence's result and validity, or unverified without evidence.
pub open spec fn child_status_of(c: RequiredChild, latest: Option<ChildEvidence>, s: ChildStatus) -> bool {
    &&& s.obligation_id@ == c.obligation_id@
    &&& match latest {
        Some(e) => s.status == e.status && s.validity == Some(e.validity) && s.evidence_id == Some(e.evidence_id),
        None => s.status == VerificationStatus::Unverified && s.validity is None && s.evidence_id is None,
    }
}

pub fn child_status(c: &RequiredChild, latest: Option<ChildEvidence>) -> (r: ChildStatus)
    ensures
        child_status_of(*c, latest, r),
{
    match latest {
        Some(e) => ChildStatus {
            obligation_id: own(c.obligation_id.as_str()),
            status: e.status,
            validity: Some(e.validity),
            evidence_id: Some(e.evidence_id),
        },
        None => ChildStatus {
            obligation_id: own(c.obligation_id.as_str()),
            status: VerificationStatus::Unverified,
            validity: None,
            evidence_id: None,
        },
    }
}

/// The assessment of a parent from the latest evidence of each required child, in
/// the order the parent lists them.
pub fn aggregate_parent(parent: &ParentObligation, latest: Vec<Option<ChildEvidence>>) -> (r: ParentAssessment)
    requires
        latest@.len() == parent.required_children@.len(),
    ensures
        r.children@.len() == parent.required_children@.len(),
        forall|i: int| 0 <= i < latest@.len() ==> child_status_of(parent.required_children@[i], latest@[i], #[trigger] r.children@[i]),
        r.status == aggregate_status(*parent, r.children@),
        r.parent_id@ == parent.id@,
        r.claim@ == parent.claim@,
        r.authority@ == parent.authority@,
{
    let ghost lv = latest@;
    proof {
        assert(lv.len() == latest.len());
    }
    let mut children: Vec<ChildStatus> = Vec::new();
    let mut rest = latest;
    let mut i: usize = 0;
    while rest.len() > 0
        invariant
            i <= lv.len(),
            lv.len() == parent.required_children@.len(),
            lv.len() <= usize::MAX,
            rest@ == lv.subrange(i as int, lv.len() as int),
            children@.len() == i,
            forall|j: int| 0 <= j < i ==> child_status_of(parent.required_children@[j], lv[j], #[trigger] children@[j]),
        decreases rest.len(),
    {
        proof {
            assert(rest@.len() == lv.len() - i);
        }
        let e = rest.remove(0);
        proof {
            assert(e == lv[i as int]);
            assert(rest@ =~= lv.subrange(i + 1, lv.len() as int));
        }
        let s = child_status(&parent.required_children[i], e);
        children.push(s);
        i = i + 1;
    }
    aggregate(parent, children)
}

// ---------------------------------------------------------------------------
// Laws
// ---------------------------------------------------------------------------

/// A parent passes only when it requires children, every required child is
/// supplied, and every supplied child passed on current evidence.
pub proof fn law_parent_pass_requires_all_children_current_pass(p: ParentObligation, cs: Seq<ChildStatus>)
    requires
        aggregate_status(p, cs) == VerificationStatus::Pass,
    ensures
        p.required_children@.len() > 0,
        forall|id: Seq<char>| #[trigger] requires_child(p, id) ==> supplies_child(cs, id),
        forall|i: int| 0 <= i < cs.len() ==> (#[trigger] cs[i]).status == VerificationStatus::Pass
            && cs[i].validity == Some(EvidenceValidity::Current),
{
}

/// A child on stale evidence keeps its parent from passing, and an erroring child
/// makes the parent an error.
pub proof fn law_stale_or_erroring_child_blocks_pass(p: ParentObligation, cs: Seq<ChildStatus>, i: int)
    requires
        0 <= i < cs.len(),
    ensures
        cs[i].validity == Some(EvidenceValidity::Stale) ==> aggregate_status(p, cs) != VerificationStatus::Pass,
        cs[i].status == VerificationStatus::Error ==> aggregate_status(p, cs) == VerificationStatus::Error,
{
    if cs[i].status == VerificationStatus::Error {
        assert((|c: ChildStatus| c.status == VerificationStatus::Error)(cs[i]));
    }
    if cs[i].validity == Some(EvidenceValidity::Stale) {
        assert((|c: ChildStatus| c.validity == Some(EvidenceValidity::Stale))(cs[i]));
    }
}

// ---------------------------------------------------------------------------
// Judging a scenario run
// ---------------------------------------------------------------------------

/// What the runner reports. Postcondition values are canonical JSON texts, keyed
/// by postcondition identifier.
#[derive(Debug)]
pub struct RunnerOutput {
    pub postconditions: Vec<(String, String)>,
    pub diagnostics: Vec<String>,
    pub trace: Vec<String>,
    pub infrastructure_error: Option<String>,
    pub tool_versions: Vec<(String, String)>,
}

/// One expected postcondition against what the runner observed.
#[derive(Debug)]
pub struct PostconditionAssessment {
    pub id: String,
    pub expected: String,
    pub observed: Option<String>,
    pub passed: bool,
}

/// The judgement of a run: each postcondition, the result and the diagnostics.
#[derive(Debug)]
pub struct ScenarioJudgement {
    pub postconditions: Vec<PostconditionAssessment>,
    pub result: VerificationStatus,
    pub diagnostics: Vec<String>,
}

/// The value observed under `id`: that of the first entry with that key.
pub open spec fn observed_value(obs: Seq<(String, String)>, id: Seq<char>, k: int) -> Option<Seq<char>>
    decreases obs.len() - k,
{
    if k < 0 || k >= obs.len() {
        None
    } else if obs[k].0@ == id {
        Some(obs[k].1@)
    } else {
        observed_value(obs, id, k + 1)
    }
}

pub open spec fn opt_text(o: Option<String>) -> Option<Seq<char>> {
    match o {
        Some(s) => Some(s@),
        None => None,
    }
}

/// The assessment of expected postcondition `e` against the observations.
pub open spec fn assessed(a: PostconditionAssessment, e: (String, String), obs: Seq<(String, String)>) -> bool {
    let observed = observed_value(obs, e.0@, 0);
    &&& a.id@ == e.0@
    &&& a.expected@ == e.1@
    &&& opt_text(a.observed) == observed
    &&& a.passed == (observed == Some(e.1@))
}

/// The diagnostic of a failed postcondition.
pub open spec fn failure_message(a: PostconditionAssessment) -> Seq<char> {
    "postcondition `"@ + a.id@ + "` expected "@ + a.expected@ + " but observed "@ + match a.observed {
        Some(o) => o@,
        None => "<missing>"@,
    }
}

/// The diagnostics of the failed postconditions among the first `k`, in order.
pub open spec fn failure_messages(s: Seq<PostconditionAssessment>, k: int) -> Seq<Seq<char>>
    decreases k,
{
    if k <= 0 {
        Seq::empty()
    } else if s[k - 1].passed {
        failure_messages(s, k - 1)
    } else {
        failure_messages(s, k - 1).push(failure_message(s[k - 1]))
    }
}

fn observed_exec(obs: &Vec<(String, String)>, id: &str) -> (r: Option<String>)
    ensures
        opt_text(r) == observed_value(obs@, id@, 0),
{
    let mut k: usize = 0;
    while k < obs.len()
        invariant
            k <= obs@.len(),
            observed_value(obs@, id@, 0) == observed_value(obs@, id@, k as int),
        decreases obs.len() - k,
    {
        if str_eq(obs[k].0.as_str(), id) {
            return Some(obs[k].1.clone());
        }
        k = k + 1;
    }
    None
}

/// Judges a run: each expected postcondition (in order) passes when the runner
/// observed exactly that value. An infrastructure error makes the result an error;
/// else it passes when every postcondition does and fails otherwise. The
/// diagnostics are the runner's, then its infrastructure error, then one for each
/// failed postcondition.
pub fn judge_run(expected: &Vec<(String, String)>, runner: RunnerOutput) -> (r: ScenarioJudgement)
    ensures
        r.postconditions@.len() == expected@.len(),
        forall|i: int| 0 <= i < expected@.len() ==> assessed(#[trigger] r.postconditions@[i], expected@[i], runner.postconditions@),
        r.result == if runner.infrastructure_error is Some {
            VerificationStatus::Error
        } else if forall|i: int| 0 <= i < expected@.len() ==> (#[trigger] r.postconditions@[i]).passed {
            VerificationStatus::Pass
        } else {
            VerificationStatus::Fail
        },
        strs(r.diagnostics@) == strs(runner.diagnostics@) + match runner.infrastructure_error {
            Some(e) => seq![e@],
            None => Seq::<Seq<char>>::empty(),
        } + failure_messages(r.postconditions@, expected@.len() as int),
{
    proof {
        reveal_strlit("<missing>");
    }
    let mut postconditions: Vec<PostconditionAssessment> = Vec::new();
    let mut all_passed = true;
    let mut i: usize = 0;
    while i < expected.len()
        invariant
            i <= expected@.len(),
            postconditions@.len() == i,
            forall|j: int| 0 <= j < i ==> assessed(#[trigger] postconditions@[j], expected@[j], runner.postconditions@),
            all_passed == forall|j: int| 0 <= j < i ==> (#[trigger] postconditions@[j]).passed,
        decreases expected.len() - i,
    {
        let observed = observed_exec(&runner.postconditions, expected[i].0.as_str());
        let passed = match &observed {
            Some(o) => str_eq(o.as_str(), expected[i].1.as_str()),
            None => false,
        };
        let a = PostconditionAssessment { id: expected[i].0.clone(), expected: expected[i].1.clone(), observed, passed };
        let ghost p0 = postconditions@;
        postconditions.push(a);
        proof {
            assert(postconditions@[i as int].passed == passed);
            assert forall|j: int| 0 <= j < i implies postconditions@[j] == p0[j] by {};
        }
        all_passed = all_passed && passed;
        i = i + 1;
    }
    let result = if runner.infrastructure_error.is_some() {
        VerificationStatus::Error
    } else if all_passed {
        VerificationStatus::Pass
    } else {
        VerificationStatus::Fail
    };
    let ghost rd = strs(runner.diagnostics@);
    let ghost infra = runner.infrastructure_error;
    let mut diagnostics = runner.diagnostics;
    match runner.infrastructure_error {
        Some(e) => {
            diagnostics.push(e);
        },
        None => {},
    }
    let ghost d1 = strs(diagnostics@);
    proof {
        assert(d1 =~= rd + match infra {
            Some(e) => seq![e@],
            None => Seq::<Seq<char>>::empty(),
        });
    }
    let mut k: usize = 0;
    while k < postconditions.len()
        invariant
            k <= postconditions@.len(),
            strs(diagnostics@) == d1 + failure_messages(postconditions@, k as int),
        decreases postconditions.len() - k,
    {
        let a = &postconditions[k];
        if !a.passed {
            let mut m = crate::text::cat3("postcondition `", a.id.as_str(), "` expected ");
            m.append(a.expected.as_str());
            m.append(" but observed ");
            match &a.observed {
                Some(o) => m.append(o.as_str()),
                None => m.append("<missing>"),
            }
            let ghost dv = strs(diagnostics@);
            diagnostics.push(m);
            proof {
                assert(strs(diagnostics@) =~= dv.push(m@));
            }
        }
        k = k + 1;
    }
    ScenarioJudgement { postconditions, result, diagnostics }
}

} // verus!
