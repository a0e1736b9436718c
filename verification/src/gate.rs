//! The release gate: read-only composition of an externally pinned required set with
//! the current scope, reviews, coverage and latest evidence. Authorizing the baseline
//! and protecting the evidence store happen elsewhere; nothing is approved here.
use vstd::prelude::*;
use crate::adr::{Error, strs};
use crate::evidence::{Evidence, EvidenceValidity, InputFingerprint, VerificationStatus, sha256_hex};
use crate::native_test::{NativeTestAssessment, NativeTestDefinition};
use crate::project::{CoverageScope, FactCoverage, ProjectModel, WorldAssumption};
use crate::text::{own, str_eq, trim};

verus! {

/// A person who approved a required set, and where the approval is recorded.
#[derive(Debug)]
pub struct Reviewer {
    pub kind: String,
    pub identity: String,
    pub approval_reference: String,
}

/// Coverage the required set demands: a relation closed over a scope.
#[derive(Debug)]
pub struct RequiredCoverage {
    pub relation: String,
    pub scope: CoverageScope,
}

/// What the required set was approved over: the inventory inputs, the constraint
/// identifiers, the current review head of each requirement and the hash of each
/// required native-test definition (the last two as key-ordered pairs).
#[derive(Debug)]
pub struct ScopeSnapshot {
    pub inventory_inputs: Vec<InputFingerprint>,
    pub constraints: Vec<String>,
    pub review_heads: Vec<(String, String)>,
    pub native_definitions: Vec<(String, String)>,
}

/// The approved set of required checks.
#[derive(Debug)]
pub struct RequiredSet {
    pub schema_version: String,
    pub decision: String,
    pub reviewer: Option<Reviewer>,
    pub rationale: Option<String>,
    pub scope: ScopeSnapshot,
    pub global_obligation: String,
    pub backend_version: String,
    pub timeout_ms: u64,
    pub required_coverage: Vec<RequiredCoverage>,
}

/// The assessment of one required obligation.
#[derive(Debug)]
pub struct Check {
    pub obligation: String,
    pub status: VerificationStatus,
    pub evidence_id: Option<String>,
    pub freshness: Option<EvidenceValidity>,
    pub diagnostics: Vec<String>,
}

/// The outcome of assessing a required set.
#[derive(Debug)]
pub struct Report {
    pub schema_version: String,
    pub result: String,
    pub baseline_sha256: String,
    pub authority: String,
    pub scope_matches: bool,
    pub reviews_current: bool,
    pub coverage: Vec<FactCoverage>,
    pub checks: Vec<Check>,
    pub diagnostics: Vec<String>,
    pub does_not_prove: Vec<String>,
}

impl Report {
    /// The exit status for the result: 0 when it passes, 1 when it fails, 2 on
    /// an error, and 3 when it is incomplete.
    pub fn exit_code(&self) -> (r: i32)
        ensures
            r == if self.result@ == "PASS"@ {
                0i32
            } else if self.result@ == "FAIL"@ {
                1i32
            } else if self.result@ == "ERROR"@ {
                2i32
            } else {
                3i32
            },
    {
        if crate::text::str_eq(self.result.as_str(), "PASS") {
            0
        } else if crate::text::str_eq(self.result.as_str(), "FAIL") {
            1
        } else if crate::text::str_eq(self.result.as_str(), "ERROR") {
            2
        } else {
            3
        }
    }
}

// ---------------------------------------------------------------------------
// Texts
// ---------------------------------------------------------------------------

pub open spec fn set_schema() -> Seq<char> {
    "adrproof-required-set-v1alpha1"@
}

pub open spec fn report_schema() -> Seq<char> {
    "adrproof-gate-report-v1alpha1"@
}

/// The obligation of the project's consistency check.
pub open spec fn global_obligation() -> Seq<char> {
    "PO:project-consistency"@
}

pub open spec fn is_lower_hex(c: char) -> bool {
    ('0' <= c && c <= '9') || ('a' <= c && c <= 'f')
}

/// Sixty-four lower-case hexadecimal digits.
pub open spec fn is_hash_text(s: Seq<char>) -> bool {
    s.len() == 64 && forall|i: int| 0 <= i < s.len() ==> is_lower_hex(#[trigger] s[i])
}

/// A control character (`char::is_control`).
pub open spec fn is_control(c: char) -> bool {
    c <= '\u{1F}' || ('\u{7F}' <= c && c <= '\u{9F}')
}

/// Not blank once trimmed, and free of control characters.
pub open spec fn is_nonempty(s: Seq<char>) -> bool {
    trim(s).len() > 0 && forall|i: int| 0 <= i < s.len() ==> !is_control(#[trigger] s[i])
}

pub(crate) fn is_hash(s: &str) -> (r: bool)
    ensures
        r == is_hash_text(s@),
{
    let v = crate::text::chars_of(s);
    if v.len() != 64 {
        return false;
    }
    let mut i: usize = 0;
    while i < v.len()
        invariant
            i <= v@.len(),
            v@ == s@,
            forall|j: int| 0 <= j < i ==> is_lower_hex(#[trigger] v@[j]),
        decreases v.len() - i,
    {
        let c = v[i];
        if !(('0' <= c && c <= '9') || ('a' <= c && c <= 'f')) {
            return false;
        }
        i = i + 1;
    }
    true
}

fn nonempty(s: &str) -> (r: bool)
    ensures
        r == is_nonempty(s@),
{
    let t = crate::text::trim_string(s);
    if crate::text::is_empty_str(t.as_str()) {
        return false;
    }
    let v = crate::text::chars_of(s);
    let mut i: usize = 0;
    while i < v.len()
        invariant
            i <= v@.len(),
            v@ == s@,
            t@ == trim(s@),
            t@.len() > 0,
            forall|j: int| 0 <= j < i ==> !is_control(#[trigger] v@[j]),
        decreases v.len() - i,
    {
        let c = v[i];
        if c <= '\u{1F}' || ('\u{7F}' <= c && c <= '\u{9F}') {
            return false;
        }
        i = i + 1;
    }
    true
}

fn invalid(message: &str) -> (r: Error)
    ensures
        r matches Error::Diagnostic { path, line, column, message: m } && path@ == "<gate>"@ && line == 1 && column == 1 && m@ == message@,
{
    crate::adr::diag("<gate>", 1, 1, message)
}

// ---------------------------------------------------------------------------
// The required set
// ---------------------------------------------------------------------------

/// The set explicitly approves a nonempty, supported scope and backend context.
pub open spec fn set_approved(set: RequiredSet) -> bool {
    &&& set.schema_version@ == set_schema()
    &&& set.decision@ == "approved"@
    &&& set.reviewer matches Some(r) && r.kind@ == "human_attestation"@ && is_nonempty(r.identity@) && is_nonempty(r.approval_reference@)
    &&& set.rationale matches Some(x) && is_nonempty(x@)
    &&& set.global_obligation@ == global_obligation()
    &&& is_nonempty(set.backend_version@)
    &&& set.timeout_ms != 0
    &&& set.scope.constraints@.len() > 0
    &&& set.scope.review_heads@.len() > 0
    &&& set.scope.inventory_inputs@.len() > 0
    &&& forall|i: int| 0 <= i < set.scope.review_heads@.len() ==> is_hash_text((#[trigger] set.scope.review_heads@[i]).1@)
    &&& forall|i: int| 0 <= i < set.scope.native_definitions@.len() ==> is_hash_text((#[trigger] set.scope.native_definitions@[i]).1@)
}

fn all_hashes(v: &Vec<(String, String)>) -> (r: bool)
    ensures
        r == forall|i: int| 0 <= i < v@.len() ==> is_hash_text((#[trigger] v@[i]).1@),
{
    let mut i: usize = 0;
    while i < v.len()
        invariant
            i <= v@.len(),
            forall|j: int| 0 <= j < i ==> is_hash_text((#[trigger] v@[j]).1@),
        decreases v.len() - i,
    {
        if !is_hash(v[i].1.as_str()) {
            return false;
        }
        i = i + 1;
    }
    true
}

/// Checks that the required set is approved (see `set_approved`).
pub fn check_set(set: &RequiredSet) -> (r: Result<(), Error>)
    ensures
        r is Ok <==> set_approved(*set),
        r matches Err(e) ==> e matches Error::Diagnostic { path, .. } && path@ == "<gate>"@,
{
    proof {
        reveal_strlit("adrproof-required-set-v1alpha1");
        reveal_strlit("approved");
        reveal_strlit("human_attestation");
        reveal_strlit("PO:project-consistency");
    }
    let approved = match &set.reviewer {
        Some(r) => str_eq(r.kind.as_str(), "human_attestation") && nonempty(r.identity.as_str()) && nonempty(r.approval_reference.as_str()),
        None => false,
    };
    let rationale = match &set.rationale {
        Some(x) => nonempty(x.as_str()),
        None => false,
    };
    if !str_eq(set.schema_version.as_str(), "adrproof-required-set-v1alpha1") || !str_eq(set.decision.as_str(), "approved") || !approved
        || !rationale || !str_eq(set.global_obligation.as_str(), "PO:project-consistency") || !nonempty(set.backend_version.as_str())
        || set.timeout_ms == 0 || set.scope.constraints.len() == 0 || set.scope.review_heads.len() == 0
        || set.scope.inventory_inputs.len() == 0 || !all_hashes(&set.scope.review_heads)
        || !all_hashes(&set.scope.native_definitions) {
        return Err(invalid("required set must explicitly approve a nonempty supported scope and backend context"));
    }
    Ok(())
}

/// Checks the pin and that the baseline bytes hash to it.
pub fn check_pin(pin: &str, baseline: &[u8]) -> (r: Result<(), Error>)
    ensures
        !is_hash_text(pin@) ==> (r matches Err(Error::Diagnostic { message, .. })
            && message@ == "baseline SHA-256 must be 64 lowercase hexadecimal characters"@),
        is_hash_text(pin@) && sha256_hex(baseline@) != pin@ ==> (r matches Err(Error::Diagnostic { message, .. })
            && message@ == "BASELINE_PIN_MISMATCH"@),
        r is Ok <==> is_hash_text(pin@) && sha256_hex(baseline@) == pin@,
{
    if !is_hash(pin) {
        return Err(invalid("baseline SHA-256 must be 64 lowercase hexadecimal characters"));
    }
    let f = crate::evidence::fingerprint_bytes("baseline", baseline);
    if !str_eq(f.sha256.as_str(), pin) {
        return Err(invalid("BASELINE_PIN_MISMATCH"));
    }
    Ok(())
}

// ---------------------------------------------------------------------------
// Scope and coverage
// ---------------------------------------------------------------------------

pub open spec fn pair_views(v: Seq<(String, String)>) -> Seq<(Seq<char>, Seq<char>)> {
    v.map_values(|p: (String, String)| (p.0@, p.1@))
}

/// Two snapshots are the same, entry for entry.
pub open spec fn same_scope(a: ScopeSnapshot, b: ScopeSnapshot) -> bool {
    &&& crate::evidence::fingerprint_views(a.inventory_inputs@) == crate::evidence::fingerprint_views(b.inventory_inputs@)
    &&& strs(a.constraints@) == strs(b.constraints@)
    &&& pair_views(a.review_heads@) == pair_views(b.review_heads@)
    &&& pair_views(a.native_definitions@) == pair_views(b.native_definitions@)
}

fn same_pairs(a: &Vec<(String, String)>, b: &Vec<(String, String)>) -> (r: bool)
    ensures
        r == (pair_views(a@) == pair_views(b@)),
{
    if a.len() != b.len() {
        proof {
            assert(pair_views(a@).len() != pair_views(b@).len());
        }
        return false;
    }
    let mut i: usize = 0;
    while i < a.len()
        invariant
            a@.len() == b@.len(),
            i <= a@.len(),
            forall|j: int| 0 <= j < i ==> pair_views(a@)[j] == pair_views(b@)[j],
        decreases a.len() - i,
    {
        if !str_eq(a[i].0.as_str(), b[i].0.as_str()) || !str_eq(a[i].1.as_str(), b[i].1.as_str()) {
            proof {
                assert(pair_views(a@)[i as int] != pair_views(b@)[i as int]);
            }
            return false;
        }
        i = i + 1;
    }
    proof {
        assert(pair_views(a@) =~= pair_views(b@));
    }
    true
}

/// Whether two snapshots are the same.
pub fn scope_matches(a: &ScopeSnapshot, b: &ScopeSnapshot) -> (r: bool)
    ensures
        r == same_scope(*a, *b),
{
    crate::evidence::same_fingerprint_list(&a.inventory_inputs, &b.inventory_inputs)
        && crate::check::same_strings(&a.constraints, &b.constraints)
        && same_pairs(&a.review_heads, &b.review_heads)
        && same_pairs(&a.native_definitions, &b.native_definitions)
}

/// Coverage is complete: every required relation is closed over its scope, no used
/// relation is only partially covered, and no constraint rests on unclaimed absence.
pub open spec fn coverage_complete(set: RequiredSet, m: ProjectModel) -> bool {
    &&& forall|i: int| 0 <= i < set.required_coverage@.len() ==> crate::project::coverage_of(
        m.fact_coverage@,
        (#[trigger] set.required_coverage@[i]).relation@,
        set.required_coverage@[i].scope@,
    ) == Some(WorldAssumption::Closed)
    &&& !exists|i: int| 0 <= i < m.fact_coverage@.len() && crate::loading::used_relation(m, (#[trigger] m.fact_coverage@[i]).relation@)
        && m.fact_coverage@[i].world == WorldAssumption::Partial
    &&& !crate::check::rests_on_uncovered(m)
}

/// Whether coverage is complete for the set (see `coverage_complete`).
pub fn coverage_ok(set: &RequiredSet, m: &ProjectModel) -> (r: bool)
    ensures
        r == coverage_complete(*set, *m),
{
    let mut i: usize = 0;
    while i < set.required_coverage.len()
        invariant
            i <= set.required_coverage@.len(),
            forall|j: int| 0 <= j < i ==> crate::project::coverage_of(
                m.fact_coverage@,
                (#[trigger] set.required_coverage@[j]).relation@,
                set.required_coverage@[j].scope@,
            ) == Some(WorldAssumption::Closed),
        decreases set.required_coverage.len() - i,
    {
        let c = &set.required_coverage[i];
        match m.coverage_for(c.relation.as_str(), &c.scope) {
            Some(WorldAssumption::Closed) => {},
            _ => return false,
        }
        i = i + 1;
    }
    let used = crate::loading::used_relations(m);
    let mut k: usize = 0;
    while k < m.fact_coverage.len()
        invariant
            k <= m.fact_coverage@.len(),
            forall|n: Seq<char>| #[trigger] crate::keyed::set_has(used@, n) <==> crate::loading::used_relation(*m, n),
            forall|j: int| 0 <= j < k ==> !(crate::loading::used_relation(*m, (#[trigger] m.fact_coverage@[j]).relation@)
                && m.fact_coverage@[j].world == WorldAssumption::Partial),
        decreases m.fact_coverage.len() - k,
    {
        let partial = match m.fact_coverage[k].world {
            WorldAssumption::Partial => true,
            WorldAssumption::Closed => false,
        };
        if partial && crate::keyed::contains_str(&used, m.fact_coverage[k].relation.as_str()) {
            proof {
                assert(crate::keyed::set_has(used@, m.fact_coverage@[k as int].relation@));
            }
            return false;
        }
        proof {
            if partial {
                assert(!crate::keyed::set_has(used@, m.fact_coverage@[k as int].relation@));
            }
        }
        k = k + 1;
    }
    let mut c: usize = 0;
    while c < m.constraints.len()
        invariant
            c <= m.constraints@.len(),
            forall|j: int| 0 <= j < c ==> !crate::check::uncovered(*m, (#[trigger] m.constraints@[j]).formula@, Seq::empty()),
        decreases m.constraints.len() - c,
    {
        let mut bound: Vec<String> = Vec::new();
        proof {
            assert(strs(bound@) =~= Seq::<Seq<char>>::empty());
        }
        if crate::check::uncovered_exec(m, &m.constraints[c].formula, &mut bound) {
            return false;
        }
        c = c + 1;
    }
    true
}

// ---------------------------------------------------------------------------
// Checks
// ---------------------------------------------------------------------------

/// The last evidence in `ev` recorded for obligation `ob`.
pub open spec fn last_for(ev: Seq<Evidence>, ob: Seq<char>) -> Option<int>
    decreases ev.len(),
{
    if ev.len() == 0 {
        None
    } else if ev.last().obligation.0@ == ob {
        Some(ev.len() - 1)
    } else {
        last_for(ev.drop_last(), ob)
    }
}

/// The validity given to evidence here: stale unless it comes from `z3` with exactly
/// the set's backend version and distinct input sources, else as assessed.
pub open spec fn gate_validity(e: Evidence, current: Seq<InputFingerprint>, backend_version: Seq<char>, config: Seq<char>) -> EvidenceValidity {
    if e.backend@ == "z3"@ && e.backend_version@ == backend_version && crate::evidence::distinct_sources(e.inputs@) {
        crate::evidence::validity_of(e, current, backend_version, config)
    } else {
        EvidenceValidity::Stale
    }
}

/// The check of the global obligation: unverified without evidence, else the
/// recorded result of the last evidence for it when current, and stale otherwise.
pub open spec fn global_check_of(ev: Seq<Evidence>, current: Seq<InputFingerprint>, backend_version: Seq<char>, config: Seq<char>, c: Check) -> bool {
    &&& c.obligation@ == global_obligation()
    &&& match last_for(ev, global_obligation()) {
        None => c.status == VerificationStatus::Unverified && c.evidence_id is None && c.freshness is None && c.diagnostics@.len() == 0,
        Some(k) => {
            let v = gate_validity(ev[k], current, backend_version, config);
            &&& c.freshness == Some(v)
            &&& c.status == if v == EvidenceValidity::Current { ev[k].result_at_execution } else { VerificationStatus::Stale }
            &&& c.evidence_id matches Some(x) && x@ == ev[k].id.0@
            &&& strs(c.diagnostics@) == strs(ev[k].diagnostics@)
        },
    }
}

fn distinct_exec(s: &Vec<InputFingerprint>) -> (r: bool)
    ensures
        r == crate::evidence::distinct_sources(s@),
{
    let mut i: usize = 0;
    while i < s.len()
        invariant
            i <= s@.len(),
            forall|a: int, b: int| 0 <= a < b < s@.len() && a < i ==> (#[trigger] s@[a]).source@ != (#[trigger] s@[b]).source@,
        decreases s.len() - i,
    {
        let mut j: usize = i + 1;
        while j < s.len()
            invariant
                i < s@.len(),
                i + 1 <= j <= s@.len(),
                forall|a: int, b: int| 0 <= a < b < s@.len() && a < i ==> (#[trigger] s@[a]).source@ != (#[trigger] s@[b]).source@,
                forall|b: int| i < b < j ==> s@[i as int].source@ != (#[trigger] s@[b]).source@,
            decreases s.len() - j,
        {
            if str_eq(s[i].source.as_str(), s[j].source.as_str()) {
                return false;
            }
            j = j + 1;
        }
        i = i + 1;
    }
    true
}

fn last_index_for(ev: &Vec<Evidence>, ob: &str) -> (r: Option<usize>)
    ensures
        r matches Some(k) ==> last_for(ev@, ob@) == Some(k as int) && k < ev@.len(),
        r is None ==> last_for(ev@, ob@) is None,
{
    let mut i: usize = ev.len();
    proof {
        assert(ev@.take(i as int) =~= ev@);
    }
    while i > 0
        invariant
            i <= ev@.len(),
            last_for(ev@, ob@) == last_for(ev@.take(i as int), ob@),
        decreases i,
    {
        proof {
            assert(ev@.take(i as int).drop_last() =~= ev@.take(i - 1));
            assert(ev@.take(i as int).last() == ev@[i - 1]);
        }
        if str_eq(ev[i - 1].obligation.0.as_str(), ob) {
            return Some(i - 1);
        }
        i = i - 1;
    }
    None
}

/// The check of the global obligation (see `global_check_of`).
pub fn global_check(ev: &Vec<Evidence>, current: &Vec<InputFingerprint>, backend_version: &str, config: &str) -> (c: Check)
    ensures
        global_check_of(ev@, current@, backend_version@, config@, c),
{
    proof {
        reveal_strlit("z3");
    }
    let obligation = own("PO:project-consistency");
    match last_index_for(ev, "PO:project-consistency") {
        None => Check { obligation, status: VerificationStatus::Unverified, evidence_id: None, freshness: None, diagnostics: Vec::new() },
        Some(k) => {
            let item = &ev[k];
            let validity = if str_eq(item.backend.as_str(), "z3") && str_eq(item.backend_version.as_str(), backend_version) && distinct_exec(&item.inputs) {
                crate::evidence::assess(item, current, backend_version, config)
            } else {
                EvidenceValidity::Stale
            };
            let status = match validity {
                EvidenceValidity::Current => item.result_at_execution,
                EvidenceValidity::Stale => VerificationStatus::Stale,
            };
            Check {
                obligation,
                status,
                evidence_id: Some(own(item.id.0.as_str())),
                freshness: Some(validity),
                diagnostics: crate::project::clone_strings(&item.diagnostics),
            }
        },
    }
}

/// A passing native-test check whose evidence does not match its definition or shows
/// no real execution is invalid.
pub open spec fn native_pass_valid(d: NativeTestDefinition, e: crate::native_test::NativeTestEvidence, obligation: Seq<char>) -> bool {
    &&& e.provider@ == "native_test_report"@
    &&& e.obligation.0@ == obligation
    &&& e.report_schema@ == "nextest-summary-v1"@
    &&& e.command@ == d.command@
    &&& e.working_directory@ == d.working_directory@
    &&& e.authority@ == d.authority@
    &&& strs(e.does_not_prove@) == strs(d.does_not_prove@)
    &&& strs(e.required_tests@) == strs(d.required_tests@)
    &&& e.failed == 0
    &&& e.passed >= d.minimum_passed
    &&& e.skipped <= d.maximum_skipped
    &&& e.passed != 0
    &&& e.non_vacuity.non_empty_execution
    &&& e.non_vacuity.all_required_observed_pass
    &&& e.non_vacuity.executed_tests == e.passed
    &&& e.non_vacuity.required_tests == d.required_tests@.len()
    &&& e.non_vacuity.observed_required_tests == d.required_tests@.len()
}

/// The check of native test `id`: unverified without a definition or evidence; else
/// the recorded result when current and stale otherwise, with a pass turned into an
/// error when its evidence is not a valid pass for the definition.
pub open spec fn native_check_of(id: Seq<char>, d: Option<NativeTestDefinition>, a: Option<NativeTestAssessment>, c: Check) -> bool {
    &&& c.obligation@ == "NATIVE-TEST:"@ + id
    &&& match (d, a) {
        (Some(d), Some(a)) => {
            let base = if a.current_validity == EvidenceValidity::Current { a.evidence.result_at_execution } else { VerificationStatus::Stale };
            let bad = base == VerificationStatus::Pass && !native_pass_valid(d, a.evidence, "NATIVE-TEST:"@ + id);
            &&& c.status == if bad { VerificationStatus::Error } else { base }
            &&& c.evidence_id matches Some(x) && x@ == a.evidence.id.0@
            &&& c.freshness == Some(a.current_validity)
            &&& strs(c.diagnostics@) == (if bad { seq!["INVALID_NATIVE_PASS_CONTEXT"@] } else { Seq::empty() }) + strs(a.evidence.diagnostics@)
        },
        _ => c.status == VerificationStatus::Unverified && c.evidence_id is None && c.freshness is None && c.diagnostics@.len() == 0,
    }
}

/// The check of native test `id` (see `native_check_of`).
pub fn native_check(id: &str, d: Option<&NativeTestDefinition>, a: Option<NativeTestAssessment>) -> (c: Check)
    ensures
        native_check_of(id@, match d { Some(x) => Some(*x), None => None }, a, c),
{
    let obligation = crate::text::cat("NATIVE-TEST:", id);
    match (d, a) {
        (Some(d), Some(a)) => {
            let e = a.evidence;
            let validity = a.current_validity;
            let mut status = match validity {
                EvidenceValidity::Current => e.result_at_execution,
                EvidenceValidity::Stale => VerificationStatus::Stale,
            };
            let mut diagnostics: Vec<String> = Vec::new();
            proof {
                reveal_strlit("native_test_report");
                reveal_strlit("nextest-summary-v1");
            }
            let valid = str_eq(e.provider.as_str(), crate::native_test::provider_name())
                && str_eq(e.obligation.0.as_str(), obligation.as_str())
                && str_eq(e.report_schema.as_str(), crate::native_test::report_schema())
                && str_eq(e.command.as_str(), d.command.as_str())
                && str_eq(e.working_directory.as_str(), d.working_directory.as_str())
                && str_eq(e.authority.as_str(), d.authority.as_str())
                && crate::check::same_strings(&e.does_not_prove, &d.does_not_prove)
                && crate::check::same_strings(&e.required_tests, &d.required_tests)
                && e.failed == 0 && e.passed >= d.minimum_passed && e.skipped <= d.maximum_skipped && e.passed != 0
                && e.non_vacuity.non_empty_execution && e.non_vacuity.all_required_observed_pass
                && e.non_vacuity.executed_tests == e.passed
                && e.non_vacuity.required_tests == d.required_tests.len() as u64
                && e.non_vacuity.observed_required_tests == d.required_tests.len() as u64;
            let ghost bad = status == VerificationStatus::Pass && !valid;
            if status == VerificationStatus::Pass && !valid {
                status = VerificationStatus::Error;
                diagnostics.push(own("INVALID_NATIVE_PASS_CONTEXT"));
            }
            let ghost d0 = diagnostics@;
            let mut k: usize = 0;
            while k < e.diagnostics.len()
                invariant
                    k <= e.diagnostics@.len(),
                    strs(diagnostics@) == strs(d0) + strs(e.diagnostics@).take(k as int),
                decreases e.diagnostics.len() - k,
            {
                let ghost before = diagnostics@;
                diagnostics.push(own(e.diagnostics[k].as_str()));
                proof {
                    assert(strs(diagnostics@) =~= strs(before).push(e.diagnostics@[k as int]@));
                    assert(strs(e.diagnostics@).take(k + 1) =~= strs(e.diagnostics@).take(k as int).push(e.diagnostics@[k as int]@));
                }
                k = k + 1;
            }
            proof {
                assert(strs(e.diagnostics@).take(e.diagnostics@.len() as int) =~= strs(e.diagnostics@));
                if bad {
                    assert(strs(d0) =~= seq!["INVALID_NATIVE_PASS_CONTEXT"@]);
                } else {
                    assert(strs(d0) =~= Seq::<Seq<char>>::empty());
                }
            }
            Check { obligation, status, evidence_id: Some(own(e.id.0.as_str())), freshness: Some(validity), diagnostics }
        },
        _ => Check { obligation, status: VerificationStatus::Unverified, evidence_id: None, freshness: None, diagnostics: Vec::new() },
    }
}

// ---------------------------------------------------------------------------
// The verdict
// ---------------------------------------------------------------------------

/// ERROR when a check errs, else FAIL when a check fails, else PASS when the scope
/// matches, reviews are current, coverage is complete and every check passes, else
/// INCOMPLETE.
pub open spec fn gate_result(checks: Seq<Check>, scope_matches: bool, reviews_current: bool, coverage: bool) -> Seq<char> {
    if exists|i: int| 0 <= i < checks.len() && (#[trigger] checks[i]).status == VerificationStatus::Error {
        "ERROR"@
    } else if exists|i: int| 0 <= i < checks.len() && (#[trigger] checks[i]).status == VerificationStatus::Fail {
        "FAIL"@
    } else if !scope_matches || !reviews_current || !coverage || exists|i: int|
        0 <= i < checks.len() && (#[trigger] checks[i]).status != VerificationStatus::Pass {
        "INCOMPLETE"@
    } else {
        "PASS"@
    }
}

/// The result is `ERROR` when some check errs; else `FAIL` when some check fails; it
/// is `PASS` exactly when the scope matches, the reviews are current, coverage is
/// complete and every check passes; and it is always one of those four or
/// `INCOMPLETE`. Stale or missing reviews alone therefore rule out `PASS`.
pub proof fn law_gate_verdict(checks: Seq<Check>, scope_matches: bool, reviews_current: bool, coverage: bool)
    ensures
        (exists|i: int| 0 <= i < checks.len() && (#[trigger] checks[i]).status == VerificationStatus::Error)
            ==> gate_result(checks, scope_matches, reviews_current, coverage) == "ERROR"@,
        (forall|i: int| 0 <= i < checks.len() ==> (#[trigger] checks[i]).status != VerificationStatus::Error)
            && (exists|i: int| 0 <= i < checks.len() && (#[trigger] checks[i]).status == VerificationStatus::Fail)
            ==> gate_result(checks, scope_matches, reviews_current, coverage) == "FAIL"@,
        gate_result(checks, scope_matches, reviews_current, coverage) == "PASS"@ <==> (scope_matches && reviews_current && coverage
            && forall|i: int| 0 <= i < checks.len() ==> (#[trigger] checks[i]).status == VerificationStatus::Pass),
        !reviews_current ==> gate_result(checks, scope_matches, reviews_current, coverage) != "PASS"@,
        !scope_matches ==> gate_result(checks, scope_matches, reviews_current, coverage) != "PASS"@,
        !coverage ==> gate_result(checks, scope_matches, reviews_current, coverage) != "PASS"@,
        gate_result(checks, scope_matches, reviews_current, coverage) == "PASS"@
            || gate_result(checks, scope_matches, reviews_current, coverage) == "FAIL"@
            || gate_result(checks, scope_matches, reviews_current, coverage) == "ERROR"@
            || gate_result(checks, scope_matches, reviews_current, coverage) == "INCOMPLETE"@,
{
    reveal_strlit("PASS");
    reveal_strlit("FAIL");
    reveal_strlit("ERROR");
    reveal_strlit("INCOMPLETE");
    assert("FAIL"@ != "PASS"@) by {
        assert("FAIL"@[0] != "PASS"@[0]);
    };
    assert("ERROR"@ != "PASS"@) by {
        assert("ERROR"@.len() != "PASS"@.len());
    };
    assert("INCOMPLETE"@ != "PASS"@) by {
        assert("INCOMPLETE"@.len() != "PASS"@.len());
    };
    if (forall|i: int| 0 <= i < checks.len() ==> (#[trigger] checks[i]).status == VerificationStatus::Pass) {
        assert(!exists|i: int| 0 <= i < checks.len() && (#[trigger] checks[i]).status == VerificationStatus::Error);
        assert(!exists|i: int| 0 <= i < checks.len() && (#[trigger] checks[i]).status == VerificationStatus::Fail);
    }
}

fn result_of(checks: &Vec<Check>, scope_matches: bool, reviews_current: bool, coverage: bool) -> (r: String)
    ensures
        r@ == gate_result(checks@, scope_matches, reviews_current, coverage),
        r@ == "PASS"@ ==> scope_matches && reviews_current && coverage
            && forall|i: int| 0 <= i < checks@.len() ==> (#[trigger] checks@[i]).status == VerificationStatus::Pass,
{
    proof {
        law_gate_verdict(checks@, scope_matches, reviews_current, coverage);
    }
    let mut error = false;
    let mut fail = false;
    let mut all_pass = true;
    let mut i: usize = 0;
    while i < checks.len()
        invariant
            i <= checks@.len(),
            error == exists|j: int| 0 <= j < i && (#[trigger] checks@[j]).status == VerificationStatus::Error,
            fail == exists|j: int| 0 <= j < i && (#[trigger] checks@[j]).status == VerificationStatus::Fail,
            all_pass == forall|j: int| 0 <= j < i ==> (#[trigger] checks@[j]).status == VerificationStatus::Pass,
        decreases checks.len() - i,
    {
        let s = checks[i].status;
        if s == VerificationStatus::Error {
            error = true;
        }
        if s == VerificationStatus::Fail {
            fail = true;
        }
        if s != VerificationStatus::Pass {
            all_pass = false;
        }
        i = i + 1;
    }
    if error {
        own("ERROR")
    } else if fail {
        own("FAIL")
    } else if !scope_matches || !reviews_current || !coverage || !all_pass {
        own("INCOMPLETE")
    } else {
        own("PASS")
    }
}

/// The report's diagnostics: scope drift, incomplete reviews, incomplete coverage,
/// each when it holds, in that order.
pub open spec fn gate_diagnostics(scope_matches: bool, reviews_current: bool, coverage: bool) -> Seq<Seq<char>> {
    (if scope_matches { Seq::empty() } else {
        seq!["REQUIRED_SCOPE_DRIFT: inventory, constraints, review heads or native definitions differ from the protected set"@]
    }) + (if reviews_current { Seq::empty() } else { seq!["REVIEWS_INCOMPLETE"@] }) + (if coverage { Seq::empty() } else {
        seq!["COVERAGE_INCOMPLETE: required scope is not Closed or absence is unsupported"@]
    })
}

/// What a report never establishes, whatever the checks say.
pub open spec fn gate_limits() -> Seq<Seq<char>> {
    seq![
        "Program correctness, prose completeness, authenticated approval or independent proof replay"@,
        "Unselected native-test, scenario, model, correspondence, functional and security checks"@,
    ]
}

/// What the definitions of the required native tests say they do not prove, in order.
pub open spec fn natives_limits(nv: Seq<NativeRequirement>) -> Seq<Seq<char>>
    decreases nv.len(),
{
    if nv.len() == 0 {
        Seq::empty()
    } else {
        natives_limits(nv.drop_last()) + match nv.last().definition {
            Some(d) => strs(d.does_not_prove@),
            None => Seq::empty(),
        }
    }
}

/// Appends what a native test's definition says it does not prove.
fn append_limits(out: &mut Vec<String>, definition: &Option<NativeTestDefinition>)
    ensures
        strs(final(out)@) == strs(old(out)@) + match *definition {
            Some(d) => strs(d.does_not_prove@),
            None => Seq::empty(),
        },
{
    let ghost dn0 = strs(out@);
    match definition {
        Some(d) => {
            let mut k: usize = 0;
            while k < d.does_not_prove.len()
                invariant
                    k <= d.does_not_prove@.len(),
                    strs(out@) == dn0 + strs(d.does_not_prove@).take(k as int),
                decreases d.does_not_prove.len() - k,
            {
                let ghost before = out@;
                out.push(own(d.does_not_prove[k].as_str()));
                proof {
                    assert(strs(out@) =~= strs(before).push(d.does_not_prove@[k as int]@));
                    assert(strs(d.does_not_prove@).take(k + 1) =~= strs(d.does_not_prove@).take(k as int).push(d.does_not_prove@[k as int]@));
                }
                k = k + 1;
            }
            proof {
                assert(strs(d.does_not_prove@).take(d.does_not_prove@.len() as int) =~= strs(d.does_not_prove@));
            }
        },
        None => {
            proof {
                assert(strs(out@) =~= dn0 + Seq::<Seq<char>>::empty());
            }
        },
    }
}

/// The report's diagnostics for a scope, reviews and coverage outcome.
fn diagnostics_of(matches: bool, reviews_current: bool, coverage_complete: bool) -> (d: Vec<String>)
    ensures
        strs(d@) == gate_diagnostics(matches, reviews_current, coverage_complete),
{
    proof {
        reveal_strlit("REQUIRED_SCOPE_DRIFT: inventory, constraints, review heads or native definitions differ from the protected set");
        reveal_strlit("REVIEWS_INCOMPLETE");
        reveal_strlit("COVERAGE_INCOMPLETE: required scope is not Closed or absence is unsupported");
    }
    let mut diagnostics: Vec<String> = Vec::new();
    if !matches {
        diagnostics.push(own("REQUIRED_SCOPE_DRIFT: inventory, constraints, review heads or native definitions differ from the protected set"));
    }
    if !reviews_current {
        diagnostics.push(own("REVIEWS_INCOMPLETE"));
    }
    if !coverage_complete {
        diagnostics.push(own("COVERAGE_INCOMPLETE: required scope is not Closed or absence is unsupported"));
    }
    proof {
        assert(strs(diagnostics@) =~= gate_diagnostics(matches, reviews_current, coverage_complete));
    }
    diagnostics
}

/// One required native test with its definition and latest assessment, if any.
pub struct NativeRequirement {
    pub id: String,
    pub definition: Option<NativeTestDefinition>,
    pub assessment: Option<NativeTestAssessment>,
}

/// Assesses a pinned required set against the current scope, reviews, model and
/// evidence. Fails when the pin is malformed, the baseline does not hash to it, or
/// the set is not an explicit approval; otherwise reports the global check and one
/// check per required native test, in the set's order, the verdict, the diagnostics
/// and what the report does not prove.
#[verifier::rlimit(40)]
pub fn evaluate(
    pin: &str,
    baseline: &[u8],
    set: &RequiredSet,
    scope: &ScopeSnapshot,
    reviews_current: bool,
    model: ProjectModel,
    evidence: &Vec<Evidence>,
    current: &Vec<InputFingerprint>,
    natives: Vec<NativeRequirement>,
) -> (r: Result<Report, Error>)
    ensures
        !is_hash_text(pin@) ==> (r matches Err(Error::Diagnostic { message, .. })
            && message@ == "baseline SHA-256 must be 64 lowercase hexadecimal characters"@),
        is_hash_text(pin@) && sha256_hex(baseline@) != pin@ ==> (r matches Err(Error::Diagnostic { message, .. })
            && message@ == "BASELINE_PIN_MISMATCH"@),
        r is Ok <==> is_hash_text(pin@) && sha256_hex(baseline@) == pin@ && set_approved(*set),
        r matches Ok(rep) ==> {
            &&& rep.baseline_sha256@ == pin@
            &&& rep.schema_version@ == report_schema()
            &&& rep.scope_matches == same_scope(set.scope, *scope)
            &&& rep.reviews_current == reviews_current
            &&& rep.coverage == model.fact_coverage
            &&& rep.checks@.len() == natives@.len() + 1
            &&& global_check_of(evidence@, current@, set.backend_version@, crate::assembly::solver_configuration(set.timeout_ms), rep.checks@[0])
            &&& forall|i: int| 0 <= i < natives@.len() ==> native_check_of(
                (#[trigger] natives@[i]).id@, natives@[i].definition, natives@[i].assessment, rep.checks@[i + 1])
            &&& rep.result@ == gate_result(rep.checks@, rep.scope_matches, reviews_current, coverage_complete(*set, model))
            &&& rep.result@ == "PASS"@ ==> reviews_current && rep.scope_matches && coverage_complete(*set, model)
                && forall|i: int| 0 <= i < rep.checks@.len() ==> (#[trigger] rep.checks@[i]).status == VerificationStatus::Pass
            &&& strs(rep.diagnostics@) == gate_diagnostics(rep.scope_matches, reviews_current, coverage_complete(*set, model))
            &&& strs(rep.does_not_prove@) == gate_limits() + natives_limits(natives@)
        },
{
    match check_pin(pin, baseline) {
        Ok(()) => {},
        Err(e) => return Err(e),
    }
    match check_set(set) {
        Ok(()) => {},
        Err(e) => return Err(e),
    }
    let matches = scope_matches(&set.scope, scope);
    let coverage_complete = coverage_ok(set, &model);
    let diagnostics = diagnostics_of(matches, reviews_current, coverage_complete);
    let mut flags: Vec<String> = Vec::new();
    flags.push(own("smt.core.minimize=true"));
    let config = crate::evidence::configuration_hash(set.timeout_ms, &flags);
    proof {
        assert(strs(flags@) =~= seq!["smt.core.minimize=true"@]);
    }
    let mut checks: Vec<Check> = Vec::new();
    checks.push(global_check(evidence, current, set.backend_version.as_str(), config.as_str()));
    let mut does_not_prove: Vec<String> = Vec::new();
    does_not_prove.push(own("Program correctness, prose completeness, authenticated approval or independent proof replay"));
    does_not_prove.push(own("Unselected native-test, scenario, model, correspondence, functional and security checks"));
    let ghost nv = natives@;
    let mut rest = natives;
    let mut i: usize = 0;
    let n = rest.len();
    proof {
        reveal_strlit("Program correctness, prose completeness, authenticated approval or independent proof replay");
        reveal_strlit("Unselected native-test, scenario, model, correspondence, functional and security checks");
        assert(rest@ =~= nv.skip(0));
        assert(nv.take(0) =~= Seq::<NativeRequirement>::empty());
        assert(strs(does_not_prove@) =~= gate_limits() + natives_limits(nv.take(0)));
    }
    while rest.len() > 0
        invariant
            n == nv.len(),
            i <= n,
            rest@ == nv.skip(i as int),
            checks@.len() == i + 1,
            global_check_of(evidence@, current@, set.backend_version@, crate::assembly::solver_configuration(set.timeout_ms), checks@[0]),
            forall|j: int| 0 <= j < i ==> native_check_of((#[trigger] nv[j]).id@, nv[j].definition, nv[j].assessment, checks@[j + 1]),
            strs(does_not_prove@) == gate_limits() + natives_limits(nv.take(i as int)),
        decreases rest.len(),
    {
        let req = rest.remove(0);
        proof {
            assert(req == nv[i as int]);
            assert(rest@ =~= nv.skip(i + 1));
        }
        let NativeRequirement { id, definition, assessment } = req;
        proof {
            assert(nv.take(i + 1).drop_last() =~= nv.take(i as int));
            assert(nv.take(i + 1).last() == nv[i as int]);
        }
        append_limits(&mut does_not_prove, &definition);
        let c = native_check(id.as_str(), definition.as_ref(), assessment);
        let ghost c0 = checks@;
        checks.push(c);
        proof {
            assert forall|j: int| 0 <= j < i + 1 implies native_check_of((#[trigger] nv[j]).id@, nv[j].definition, nv[j].assessment, checks@[j + 1]) by {
                if j < i {
                    assert(checks@[j + 1] == c0[j + 1]);
                }
            };
        }
        i = i + 1;
    }
    let result = result_of(&checks, matches, reviews_current, coverage_complete);
    proof {
        reveal_strlit("adrproof-gate-report-v1alpha1");
        assert(nv.take(n as int) =~= nv);
    }
    Ok(Report {
        schema_version: own("adrproof-gate-report-v1alpha1"),
        result,
        baseline_sha256: own(pin),
        authority: own("externally_pinned_set_and_protected_evidence_store"),
        scope_matches: matches,
        reviews_current,
        coverage: model.fact_coverage,
        checks,
        diagnostics,
        does_not_prove,
    })
}

} // verus!
