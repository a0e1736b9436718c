//! Evidence imported from the summary report of a native test runner: what the
//! report must show for the evidence to pass, when recorded evidence still
//! applies, and how it joins the project graph.
use vstd::prelude::*;
use crate::adr::{Error, strs};
use crate::assembly::{content_of, fingerprinted, inputs_of};
use crate::evidence::{EvidenceValidity, InputFingerprint, VerificationStatus, fingerprint_views, sha256_hex};
use crate::project::{ArtifactId, EvidenceId, GraphEdge, GraphNode, LinkKind, ProofObligationId, edge_json, edge_json_parts};
use crate::roots::{SemanticInput, VerificationRoots, identity_of, joined};
use crate::scenario::{InputRoot, ScenarioInput};
use crate::keyed::Keyed;
use crate::text::{cat, cat3, decimal, decimal_string, is_empty_str, own, str_eq};

verus! {

/// A native test check: the command whose report it imports and what that report
/// must show.
#[derive(Debug)]
pub struct NativeTestDefinition {
    pub id: String,
    pub version: String,
    pub claim: String,
    pub authority: String,
    pub does_not_prove: Vec<String>,
    pub command: String,
    pub working_directory: String,
    pub minimum_passed: u64,
    pub maximum_skipped: u64,
    pub required_tests: Vec<String>,
    pub inputs: Vec<ScenarioInput>,
    pub excluded_inputs: Vec<ScenarioInput>,
    pub source: String,
}

/// The status of one test case in a report.
#[derive(Debug, Clone, Copy, PartialEq, Eq, Structural)]
pub enum NativeTestCaseStatus {
    Pass,
    Fail,
    Skip,
}

/// One test case in a report.
#[derive(Debug)]
pub struct NativeTestCase {
    pub name: String,
    pub status: NativeTestCaseStatus,
}

/// The summary report of a test run. The run's duration is carried as the bit
/// pattern of its seconds.
#[derive(Debug)]
pub struct NativeTestReport {
    pub schema_version: String,
    pub runner: String,
    pub runner_version: String,
    pub command: String,
    pub working_directory: String,
    pub result: VerificationStatus,
    pub passed: u64,
    pub failed: u64,
    pub skipped: u64,
    pub duration_seconds_bits: u64,
    pub tests: Vec<NativeTestCase>,
    pub diagnostics: Vec<String>,
}

/// What shows that a run was not vacuous.
#[derive(Debug)]
pub struct NativeTestNonVacuity {
    pub executed_tests: u64,
    pub required_tests: u64,
    pub observed_required_tests: u64,
    pub non_empty_execution: bool,
    pub all_required_observed_pass: bool,
}

/// Recorded evidence of a native test run.
#[derive(Debug)]
pub struct NativeTestEvidence {
    pub id: EvidenceId,
    pub obligation: ProofObligationId,
    pub definition_id: String,
    pub definition_version: String,
    pub provider: String,
    pub provider_version: String,
    pub report_schema: String,
    pub runner: String,
    pub runner_version: String,
    pub command: String,
    pub working_directory: String,
    pub report_sha256: String,
    pub configuration_sha256: String,
    pub inputs: Vec<InputFingerprint>,
    pub result_at_execution: VerificationStatus,
    pub passed: u64,
    pub failed: u64,
    pub skipped: u64,
    pub duration_seconds_bits: u64,
    pub required_tests: Vec<String>,
    pub non_vacuity: NativeTestNonVacuity,
    pub authority: String,
    pub does_not_prove: Vec<String>,
    pub diagnostics: Vec<String>,
    pub recorded_at_unix_nanos: u128,
}

/// Native test evidence with its validity.
#[derive(Debug)]
pub struct NativeTestAssessment {
    pub evidence: NativeTestEvidence,
    pub current_validity: EvidenceValidity,
}

/// The name this provider records.
pub fn provider_name() -> (r: &'static str)
    ensures
        r@ == "native_test_report"@,
{
    "native_test_report"
}

/// The version of this provider.
pub fn provider_version() -> (r: &'static str)
    ensures
        r@ == "1"@,
{
    "1"
}

/// The report schema this provider reads.
pub fn report_schema() -> (r: &'static str)
    ensures
        r@ == "nextest-summary-v1"@,
{
    "nextest-summary-v1"
}

// ---------------------------------------------------------------------------
// Definitions
// ---------------------------------------------------------------------------

/// Every name occurs once.
pub open spec fn distinct_names(s: Seq<Seq<char>>) -> bool {
    forall|i: int, j: int| 0 <= i < j < s.len() ==> s[i] != s[j]
}

/// A definition names its check, version, command and directory, and asks for at
/// least one passed test.
pub open spec fn definition_complete(d: NativeTestDefinition) -> bool {
    &&& d.id@.len() > 0
    &&& d.version@.len() > 0
    &&& d.command@.len() > 0
    &&& d.working_directory@.len() > 0
    &&& d.minimum_passed > 0
}

/// Whether some name occurs twice.
pub fn has_duplicate(v: &Vec<String>) -> (r: bool)
    ensures
        r == !distinct_names(strs(v@)),
{
    let mut i: usize = 0;
    while i < v.len()
        invariant
            i <= v@.len(),
            forall|a: int, b: int| 0 <= a < i && a < b < v@.len() ==> strs(v@)[a] != strs(v@)[b],
        decreases v.len() - i,
    {
        let mut j: usize = i + 1;
        while j < v.len()
            invariant
                i < v@.len(),
                i < j <= v@.len(),
                forall|a: int, b: int| 0 <= a < i && a < b < v@.len() ==> strs(v@)[a] != strs(v@)[b],
                forall|b: int| i < b < j ==> strs(v@)[i as int] != strs(v@)[b],
            decreases v.len() - j,
        {
            if str_eq(v[i].as_str(), v[j].as_str()) {
                proof {
                    assert(strs(v@)[i as int] == strs(v@)[j as int]);
                }
                return true;
            }
            j = j + 1;
        }
        i = i + 1;
    }
    false
}

/// Checks a definition: it must be complete, and no required test may be named
/// twice.
pub fn validate_definition(definition: &NativeTestDefinition) -> (r: Result<(), Error>)
    ensures
        r is Ok <==> definition_complete(*definition) && distinct_names(strs(definition.required_tests@)),
        !definition_complete(*definition) ==> (r matches Err(Error::ProviderFailure(m)) && m@ == definition.source@
            + ": native test id, version, command, working directory, and a positive minimum_passed are required"@),
        definition_complete(*definition) && !distinct_names(strs(definition.required_tests@)) ==> (r matches Err(
            Error::ProviderFailure(m),
        ) && m@ == definition.source@ + ": required_tests contains duplicates"@),
{
    if is_empty_str(definition.id.as_str()) || is_empty_str(definition.version.as_str()) || is_empty_str(definition.command.as_str())
        || is_empty_str(definition.working_directory.as_str()) || definition.minimum_passed == 0 {
        return Err(Error::ProviderFailure(cat(
            definition.source.as_str(),
            ": native test id, version, command, working directory, and a positive minimum_passed are required",
        )));
    }
    if has_duplicate(&definition.required_tests) {
        return Err(Error::ProviderFailure(cat(definition.source.as_str(), ": required_tests contains duplicates")));
    }
    Ok(())
}

// ---------------------------------------------------------------------------
// Inputs
// ---------------------------------------------------------------------------

/// The identity of an input file: under the project or the specification root.
pub open spec fn input_identity(roots: VerificationRoots, i: ScenarioInput) -> Seq<char> {
    match i.root {
        InputRoot::Project => identity_of("project"@, roots.project_root@, joined(roots.project_root@, i.path@)),
        InputRoot::Specification => identity_of("spec"@, roots.specification_root@, joined(roots.specification_root@, i.path@)),
    }
}

/// The path of an input file below its root.
pub open spec fn input_path(roots: VerificationRoots, i: ScenarioInput) -> Seq<char> {
    match i.root {
        InputRoot::Project => joined(roots.project_root@, i.path@),
        InputRoot::Specification => joined(roots.specification_root@, i.path@),
    }
}

/// `identity` is `prefix` or lies below it.
pub open spec fn below_prefix(identity: Seq<char>, prefix: Seq<char>) -> bool {
    identity == prefix || (prefix.len() < identity.len() && identity.subrange(0, prefix.len() as int) == prefix
        && identity[prefix.len() as int] == '/')
}

/// `identity` is excluded by one of the excluded inputs.
pub open spec fn is_excluded(roots: VerificationRoots, excluded: Seq<ScenarioInput>, identity: Seq<char>) -> bool {
    exists|j: int| 0 <= j < excluded.len() && below_prefix(identity, input_identity(roots, #[trigger] excluded[j]))
}

/// The candidates of a check: its definition file and the given input files, as
/// (identity, path) pairs.
pub open spec fn native_candidates(roots: VerificationRoots, d: NativeTestDefinition, files: Seq<ScenarioInput>) -> Seq<(Seq<char>, Seq<char>)> {
    seq![(identity_of("spec"@, roots.specification_root@, d.source@), d.source@)]
        + files.map_values(|f: ScenarioInput| (input_identity(roots, f), input_path(roots, f)))
}

/// The candidates that no excluded input covers, in order.
pub open spec fn kept_candidates(roots: VerificationRoots, excluded: Seq<ScenarioInput>, s: Seq<(Seq<char>, Seq<char>)>) -> Seq<(Seq<char>, Seq<char>)>
    decreases s.len(),
{
    if s.len() == 0 {
        s
    } else {
        let k = kept_candidates(roots, excluded, s.drop_last());
        if is_excluded(roots, excluded, s.last().0) {
            k
        } else {
            k.push(s.last())
        }
    }
}

fn input_identity_exec(roots: &VerificationRoots, i: &ScenarioInput) -> (r: (String, String))
    ensures
        r.0@ == input_identity(*roots, *i),
        r.1@ == input_path(*roots, *i),
{
    match i.root {
        InputRoot::Project => {
            let path = crate::roots::join_exec(roots.project_root.as_str(), i.path.as_str());
            (roots.project_identity(path.as_str()), path)
        },
        InputRoot::Specification => {
            let path = crate::roots::join_exec(roots.specification_root.as_str(), i.path.as_str());
            (roots.spec_identity(path.as_str()), path)
        },
    }
}

fn below_prefix_exec(identity: &str, prefix: &str) -> (r: bool)
    ensures
        r == below_prefix(identity@, prefix@),
{
    if str_eq(identity, prefix) {
        return true;
    }
    let ic = crate::text::chars_of(identity);
    let pc = crate::text::chars_of(prefix);
    if pc.len() >= ic.len() {
        return false;
    }
    let head = crate::text::occurs_at_exec(&ic, 0, prefix);
    proof {
        if head {
            assert(identity@.subrange(0, prefix@.len() as int) =~= prefix@);
        }
        if identity@.subrange(0, prefix@.len() as int) == prefix@ {
            assert(crate::text::occurs_at(identity@, 0, prefix@));
        }
    }
    head && ic[pc.len()] == '/'
}

fn excluded_exec(roots: &VerificationRoots, excluded: &Vec<ScenarioInput>, identity: &str) -> (r: bool)
    ensures
        r == is_excluded(*roots, excluded@, identity@),
{
    let mut j: usize = 0;
    while j < excluded.len()
        invariant
            j <= excluded@.len(),
            forall|q: int| 0 <= q < j ==> !below_prefix(identity@, input_identity(*roots, #[trigger] excluded@[q])),
        decreases excluded.len() - j,
    {
        let (prefix, _) = input_identity_exec(roots, &excluded[j]);
        if below_prefix_exec(identity, prefix.as_str()) {
            return true;
        }
        j = j + 1;
    }
    false
}

/// The semantic inputs of a check: its definition file and the given files (each
/// a file under its root), without those an excluded input covers.
pub fn semantic_inputs(roots: &VerificationRoots, definition: &NativeTestDefinition, files: &Vec<ScenarioInput>) -> (r: Vec<SemanticInput>)
    ensures
        crate::assembly::input_pairs(r@) == kept_candidates(*roots, definition.excluded_inputs@, native_candidates(*roots, *definition, files@)),
{
    let ghost cands = native_candidates(*roots, *definition, files@);
    let mut out: Vec<SemanticInput> = Vec::new();
    let first = roots.spec_identity(definition.source.as_str());
    if !excluded_exec(roots, &definition.excluded_inputs, first.as_str()) {
        out.push(SemanticInput { identity: first, path: definition.source.clone() });
    }
    proof {
        assert(cands.take(1).drop_last() =~= Seq::<(Seq<char>, Seq<char>)>::empty());
        assert(kept_candidates(*roots, definition.excluded_inputs@, Seq::<(Seq<char>, Seq<char>)>::empty()) =~= Seq::<(Seq<char>, Seq<char>)>::empty());
        assert(cands[0] == (identity_of("spec"@, roots.specification_root@, definition.source@), definition.source@));
        assert(cands.take(1).last() == cands[0]);
        assert(crate::assembly::input_pairs(out@) =~= kept_candidates(*roots, definition.excluded_inputs@, cands.take(1)));
    }
    let mut i: usize = 0;
    while i < files.len()
        invariant
            i <= files@.len(),
            cands == native_candidates(*roots, *definition, files@),
            crate::assembly::input_pairs(out@) == kept_candidates(*roots, definition.excluded_inputs@, cands.take(i + 1)),
        decreases files.len() - i,
    {
        let (identity, path) = input_identity_exec(roots, &files[i]);
        let ghost o0 = out@;
        proof {
            assert(cands.take(i + 2).drop_last() =~= cands.take(i + 1));
            assert(cands[i + 1] == (input_identity(*roots, files@[i as int]), input_path(*roots, files@[i as int])));
            assert(cands.take(i + 2).last() == cands[i + 1]);
        }
        if !excluded_exec(roots, &definition.excluded_inputs, identity.as_str()) {
            out.push(SemanticInput { identity, path });
            proof {
                assert(crate::assembly::input_pairs(out@) =~= crate::assembly::input_pairs(o0).push(cands[i + 1]));
            }
        }
        i = i + 1;
    }
    proof {
        assert(cands.take(files@.len() + 1 as int) =~= cands);
    }
    out
}

/// The fingerprints of a check's inputs, one per identity in identity order, from
/// the bytes given for their paths; fails on an input whose bytes are missing.
pub fn current_inputs(
    roots: &VerificationRoots,
    definition: &NativeTestDefinition,
    files: &Vec<ScenarioInput>,
    contents: &Vec<(String, Vec<u8>)>,
) -> (r: Result<Vec<InputFingerprint>, Error>)
    ensures
        exists|u: Seq<SemanticInput>| #[trigger] inputs_of(kept_candidates(*roots, definition.excluded_inputs@, native_candidates(*roots, *definition, files@)), u) && {
            &&& r is Ok <==> forall|j: int| 0 <= j < u.len() ==> content_of(contents@, (#[trigger] u[j]).path@) is Some
            &&& r matches Ok(fps) ==> fingerprinted(u, contents@, fps@)
        },
{
    let semantic = semantic_inputs(roots, definition, files);
    crate::assembly::fingerprint_semantic_files(&semantic, contents)
}

// ---------------------------------------------------------------------------
// Importing a report
// ---------------------------------------------------------------------------

/// The report shows the test `name` passing.
pub open spec fn reported_pass(tests: Seq<NativeTestCase>, name: Seq<char>) -> bool {
    exists|i: int| 0 <= i < tests.len() && (#[trigger] tests[i]).name@ == name && tests[i].status == NativeTestCaseStatus::Pass
}

/// How many of the required names the report shows passing.
pub open spec fn observed_count(required: Seq<Seq<char>>, tests: Seq<NativeTestCase>) -> nat
    decreases required.len(),
{
    if required.len() == 0 {
        0
    } else {
        observed_count(required.drop_last(), tests) + if reported_pass(tests, required.last()) {
            1nat
        } else {
            0nat
        }
    }
}

/// A diagnostic for every required test the report does not show passing.
pub open spec fn missing_messages(required: Seq<Seq<char>>, tests: Seq<NativeTestCase>) -> Seq<Seq<char>>
    decreases required.len(),
{
    if required.len() == 0 {
        Seq::empty()
    } else {
        let m = missing_messages(required.drop_last(), tests);
        if reported_pass(tests, required.last()) {
            m
        } else {
            m.push("required test `"@ + required.last() + "` did not report PASS"@)
        }
    }
}

/// `line` when `cond` holds, else nothing.
pub open spec fn when(cond: bool, line: Seq<char>) -> Seq<Seq<char>> {
    if cond {
        seq![line]
    } else {
        Seq::empty()
    }
}

/// The diagnostics of imported evidence: the report's own, then one for each
/// expectation of the definition that the report does not meet.
pub open spec fn import_diagnostics(d: NativeTestDefinition, r: NativeTestReport) -> Seq<Seq<char>> {
    strs(r.diagnostics@)
        + when(r.schema_version@ != "nextest-summary-v1"@, "expected report schema nextest-summary-v1, observed "@ + r.schema_version@)
        + when(r.command@ != d.command@, "expected command `"@ + d.command@ + "`, observed `"@ + r.command@ + "`"@)
        + when(r.working_directory@ != d.working_directory@, "expected working directory `"@ + d.working_directory@
            + "`, observed `"@ + r.working_directory@ + "`"@)
        + when(r.passed < d.minimum_passed, "expected at least "@ + decimal(d.minimum_passed as nat) + " passed tests, observed "@
            + decimal(r.passed as nat))
        + when(r.skipped > d.maximum_skipped, "expected at most "@ + decimal(d.maximum_skipped as nat) + " skipped tests, observed "@
            + decimal(r.skipped as nat))
        + missing_messages(strs(d.required_tests@), r.tests@)
}

/// The report passes the definition: the expected schema, command and directory, a
/// passing result without failures, enough passed and few enough skipped tests,
/// some test run, and every required test seen passing.
pub open spec fn report_passes(d: NativeTestDefinition, r: NativeTestReport) -> bool {
    &&& r.schema_version@ == "nextest-summary-v1"@
    &&& r.command@ == d.command@
    &&& r.working_directory@ == d.working_directory@
    &&& r.result == VerificationStatus::Pass
    &&& r.failed == 0
    &&& r.passed >= d.minimum_passed
    &&& r.skipped <= d.maximum_skipped
    &&& r.passed + r.failed > 0
    &&& observed_count(strs(d.required_tests@), r.tests@) == d.required_tests@.len()
}

fn reported_pass_exec(tests: &Vec<NativeTestCase>, name: &str) -> (r: bool)
    ensures
        r == reported_pass(tests@, name@),
{
    let mut i: usize = 0;
    while i < tests.len()
        invariant
            i <= tests@.len(),
            forall|q: int| 0 <= q < i ==> !((#[trigger] tests@[q]).name@ == name@ && tests@[q].status == NativeTestCaseStatus::Pass),
        decreases tests.len() - i,
    {
        if tests[i].status == NativeTestCaseStatus::Pass && str_eq(tests[i].name.as_str(), name) {
            return true;
        }
        i = i + 1;
    }
    false
}

proof fn lemma_observed_bound(required: Seq<Seq<char>>, tests: Seq<NativeTestCase>)
    ensures
        observed_count(required, tests) <= required.len(),
    decreases required.len(),
{
    if required.len() > 0 {
        lemma_observed_bound(required.drop_last(), tests);
    }
}

/// The required tests seen passing, and a diagnostic for each one not seen.
fn observe_required(required: &Vec<String>, tests: &Vec<NativeTestCase>) -> (r: (u64, Vec<String>))
    ensures
        r.0 == observed_count(strs(required@), tests@),
        strs(r.1@) == missing_messages(strs(required@), tests@),
{
    let mut count: u64 = 0;
    let mut missing: Vec<String> = Vec::new();
    let mut i: usize = 0;
    while i < required.len()
        invariant
            i <= required@.len(),
            count == observed_count(strs(required@).take(i as int), tests@),
            strs(missing@) == missing_messages(strs(required@).take(i as int), tests@),
        decreases required.len() - i,
    {
        proof {
            assert(strs(required@).take(i + 1).drop_last() =~= strs(required@).take(i as int));
            assert(strs(required@).take(i + 1).last() == required@[i as int]@);
            lemma_observed_bound(strs(required@).take(i as int), tests@);
        }
        if reported_pass_exec(tests, required[i].as_str()) {
            count = count + 1;
        } else {
            let ghost m0 = missing@;
            missing.push(cat3("required test `", required[i].as_str(), "` did not report PASS"));
            proof {
                assert(strs(missing@) =~= strs(m0).push("required test `"@ + required@[i as int]@ + "` did not report PASS"@));
            }
        }
        i = i + 1;
    }
    proof {
        assert(strs(required@).take(required@.len() as int) =~= strs(required@));
    }
    (count, missing)
}

fn push_line(v: &mut Vec<String>, line: String)
    ensures
        strs(final(v)@) == strs(old(v)@).push(line@),
{
    let ghost v0 = v@;
    v.push(line);
    proof {
        assert(strs(v@) =~= strs(v0).push(line@));
    }
}

fn diagnostics_for(definition: &NativeTestDefinition, report: &NativeTestReport, missing: &Vec<String>) -> (r: Vec<String>)
    requires
        strs(missing@) == missing_messages(strs(definition.required_tests@), report.tests@),
    ensures
        strs(r@) == import_diagnostics(*definition, *report),
{
    let mut diagnostics = crate::project::clone_strings(&report.diagnostics);
    let ghost d0 = strs(diagnostics@);
    let schema_ok = str_eq(report.schema_version.as_str(), report_schema());
    let command_ok = str_eq(report.command.as_str(), definition.command.as_str());
    let directory_ok = str_eq(report.working_directory.as_str(), definition.working_directory.as_str());
    if !schema_ok {
        push_line(&mut diagnostics, cat("expected report schema nextest-summary-v1, observed ", report.schema_version.as_str()));
    }
    let ghost d1 = strs(diagnostics@);
    if !command_ok {
        let head = cat3("expected command `", definition.command.as_str(), "`, observed `");
        push_line(&mut diagnostics, cat3(head.as_str(), report.command.as_str(), "`"));
    }
    let ghost d2 = strs(diagnostics@);
    if !directory_ok {
        let head = cat3("expected working directory `", definition.working_directory.as_str(), "`, observed `");
        push_line(&mut diagnostics, cat3(head.as_str(), report.working_directory.as_str(), "`"));
    }
    let ghost d3 = strs(diagnostics@);
    if report.passed < definition.minimum_passed {
        let want = decimal_string(definition.minimum_passed);
        let seen = decimal_string(report.passed);
        let head = cat3("expected at least ", want.as_str(), " passed tests, observed ");
        push_line(&mut diagnostics, cat(head.as_str(), seen.as_str()));
    }
    let ghost d4 = strs(diagnostics@);
    if report.skipped > definition.maximum_skipped {
        let want = decimal_string(definition.maximum_skipped);
        let seen = decimal_string(report.skipped);
        let head = cat3("expected at most ", want.as_str(), " skipped tests, observed ");
        push_line(&mut diagnostics, cat(head.as_str(), seen.as_str()));
    }
    let ghost d5 = strs(diagnostics@);
    let ghost dm = strs(missing@);
    let mut k: usize = 0;
    while k < missing.len()
        invariant
            k <= missing@.len(),
            dm == strs(missing@),
            strs(diagnostics@) == d5 + dm.take(k as int),
        decreases missing.len() - k,
    {
        push_line(&mut diagnostics, missing[k].clone());
        proof {
            assert(d5 + dm.take(k + 1) =~= (d5 + dm.take(k as int)).push(dm[k as int]));
        }
        k = k + 1;
    }
    proof {
        assert(dm.take(missing@.len() as int) =~= dm);
        assert(d0 == strs(report.diagnostics@));
        assert(d1 =~= d0 + when(report.schema_version@ != "nextest-summary-v1"@, "expected report schema nextest-summary-v1, observed "@ + report.schema_version@));
        assert(d2 =~= d1 + when(report.command@ != definition.command@, "expected command `"@ + definition.command@ + "`, observed `"@ + report.command@ + "`"@));
        assert(d3 =~= d2 + when(report.working_directory@ != definition.working_directory@, "expected working directory `"@ + definition.working_directory@
            + "`, observed `"@ + report.working_directory@ + "`"@));
        assert(d4 =~= d3 + when(report.passed < definition.minimum_passed, "expected at least "@ + decimal(definition.minimum_passed as nat) + " passed tests, observed "@
            + decimal(report.passed as nat)));
        assert(d5 =~= d4 + when(report.skipped > definition.maximum_skipped, "expected at most "@ + decimal(definition.maximum_skipped as nat) + " skipped tests, observed "@
            + decimal(report.skipped as nat)));
        assert(strs(diagnostics@) =~= import_diagnostics(*definition, *report));
    }
    diagnostics
}

/// Imports a parsed report as evidence for `definition`: `report_bytes` are the
/// report as read, `inputs` the current fingerprints of the check's inputs,
/// `configuration` the serialized configuration of the definition, and
/// `recorded_at_unix_nanos` the time of recording. The evidence passes exactly when
/// the report passes the definition; its identifier is assigned when it is stored.
pub fn import(
    definition: &NativeTestDefinition,
    report: NativeTestReport,
    report_bytes: &[u8],
    inputs: Vec<InputFingerprint>,
    configuration: &[u8],
    recorded_at_unix_nanos: u128,
) -> (e: NativeTestEvidence)
    requires
        report.passed + report.failed <= u64::MAX,
    ensures
        e.id.0@ == "pending"@,
        e.obligation.0@ == "NATIVE-TEST:"@ + definition.id@,
        e.definition_id@ == definition.id@,
        e.definition_version@ == definition.version@,
        e.provider@ == "native_test_report"@,
        e.provider_version@ == "1"@,
        e.report_schema@ == report.schema_version@,
        e.runner@ == report.runner@,
        e.runner_version@ == report.runner_version@,
        e.command@ == report.command@,
        e.working_directory@ == report.working_directory@,
        e.report_sha256@ == sha256_hex(report_bytes@),
        e.configuration_sha256@ == sha256_hex(configuration@),
        e.inputs@ == inputs@,
        e.result_at_execution == (if report_passes(*definition, report) {
            VerificationStatus::Pass
        } else {
            VerificationStatus::Fail
        }),
        e.passed == report.passed,
        e.failed == report.failed,
        e.skipped == report.skipped,
        e.duration_seconds_bits == report.duration_seconds_bits,
        strs(e.required_tests@) == strs(definition.required_tests@),
        e.non_vacuity.executed_tests == report.passed + report.failed,
        e.non_vacuity.required_tests == definition.required_tests@.len(),
        e.non_vacuity.observed_required_tests == observed_count(strs(definition.required_tests@), report.tests@),
        e.non_vacuity.non_empty_execution == (report.passed + report.failed > 0),
        e.non_vacuity.all_required_observed_pass == (observed_count(strs(definition.required_tests@), report.tests@)
            == definition.required_tests@.len()),
        e.authority@ == definition.authority@,
        strs(e.does_not_prove@) == strs(definition.does_not_prove@),
        strs(e.diagnostics@) == import_diagnostics(*definition, report),
        e.recorded_at_unix_nanos == recorded_at_unix_nanos,
{
    let (observed, missing) = observe_required(&definition.required_tests, &report.tests);
    let required_count = definition.required_tests.len() as u64;
    let executed = report.passed + report.failed;
    let non_vacuity = NativeTestNonVacuity {
        executed_tests: executed,
        required_tests: required_count,
        observed_required_tests: observed,
        non_empty_execution: executed > 0,
        all_required_observed_pass: observed == required_count,
    };
    let diagnostics = diagnostics_for(definition, &report, &missing);
    let schema_ok = str_eq(report.schema_version.as_str(), report_schema());
    let command_ok = str_eq(report.command.as_str(), definition.command.as_str());
    let directory_ok = str_eq(report.working_directory.as_str(), definition.working_directory.as_str());
    let valid = schema_ok && command_ok && directory_ok && report.result == VerificationStatus::Pass && report.failed == 0
        && report.passed >= definition.minimum_passed && report.skipped <= definition.maximum_skipped && executed > 0
        && observed == required_count;
    let report_sha256 = crate::evidence::sha256_of(report_bytes);
    let configuration_sha256 = crate::evidence::sha256_of(configuration);
    NativeTestEvidence {
        id: EvidenceId(own("pending")),
        obligation: ProofObligationId(cat("NATIVE-TEST:", definition.id.as_str())),
        definition_id: definition.id.clone(),
        definition_version: definition.version.clone(),
        provider: own(provider_name()),
        provider_version: own(provider_version()),
        report_schema: report.schema_version,
        runner: report.runner,
        runner_version: report.runner_version,
        command: report.command,
        working_directory: report.working_directory,
        report_sha256,
        configuration_sha256,
        inputs,
        result_at_execution: if valid {
            VerificationStatus::Pass
        } else {
            VerificationStatus::Fail
        },
        passed: report.passed,
        failed: report.failed,
        skipped: report.skipped,
        duration_seconds_bits: report.duration_seconds_bits,
        required_tests: crate::project::clone_strings(&definition.required_tests),
        non_vacuity,
        authority: definition.authority.clone(),
        does_not_prove: crate::project::clone_strings(&definition.does_not_prove),
        diagnostics,
        recorded_at_unix_nanos,
    }
}

// ---------------------------------------------------------------------------
// Assessing recorded evidence
// ---------------------------------------------------------------------------

/// Recorded evidence still applies when it was computed from exactly the current
/// inputs, by this provider version, for the current version and configuration of
/// the definition.
pub open spec fn native_validity(d: NativeTestDefinition, e: NativeTestEvidence, current: Seq<InputFingerprint>, configuration: Seq<u8>) -> EvidenceValidity {
    if fingerprint_views(e.inputs@) == fingerprint_views(current) && e.provider_version@ == "1"@
        && e.definition_version@ == d.version@ && e.configuration_sha256@ == sha256_hex(configuration) {
        EvidenceValidity::Current
    } else {
        EvidenceValidity::Stale
    }
}

/// Whether recorded evidence still applies to the definition, given the current
/// fingerprints of its inputs and its serialized configuration.
pub fn assess(
    definition: &NativeTestDefinition,
    evidence: &NativeTestEvidence,
    current: &Vec<InputFingerprint>,
    configuration: &[u8],
) -> (r: EvidenceValidity)
    ensures
        r == native_validity(*definition, *evidence, current@, configuration@),
{
    let config = crate::evidence::sha256_of(configuration);
    if crate::evidence::same_fingerprint_list(&evidence.inputs, current) && str_eq(evidence.provider_version.as_str(), provider_version())
        && str_eq(evidence.definition_version.as_str(), definition.version.as_str())
        && str_eq(evidence.configuration_sha256.as_str(), config.as_str()) {
        EvidenceValidity::Current
    } else {
        EvidenceValidity::Stale
    }
}

impl crate::evidence::Recorded for NativeTestEvidence {
    open spec fn owner_view(&self) -> Seq<char> {
        self.definition_id@
    }

    open spec fn stamp_view(&self) -> (u128, Seq<char>) {
        (self.recorded_at_unix_nanos, self.id.0@)
    }

    fn owner(&self) -> (r: &str) {
        self.definition_id.as_str()
    }

    fn stamp(&self) -> (r: (u128, String)) {
        (self.recorded_at_unix_nanos, self.id.0.clone())
    }
}

/// The latest evidence recorded for the definition, with its validity; `current`
/// and `configuration` are as for `assess`.
pub fn latest_assessment(
    definition: &NativeTestDefinition,
    all: Vec<NativeTestEvidence>,
    current: &Vec<InputFingerprint>,
    configuration: &[u8],
) -> (r: Option<NativeTestAssessment>)
    ensures
        r is None <==> !exists|i: int| 0 <= i < all@.len() && (#[trigger] all@[i]).definition_id@ == definition.id@,
        r matches Some(a) ==> exists|i: int| #[trigger] crate::evidence::latest_for(all@, definition.id@, i) && a.evidence == all@[i]
            && a.current_validity == native_validity(*definition, a.evidence, current@, configuration@),
{
    match crate::evidence::latest_recorded(all, definition.id.as_str()) {
        None => None,
        Some(evidence) => {
            let current_validity = assess(definition, &evidence, current, configuration);
            Some(NativeTestAssessment { evidence, current_validity })
        },
    }
}

// ---------------------------------------------------------------------------
// The project graph
// ---------------------------------------------------------------------------

/// The obligation of a check.
pub open spec fn obligation_of(d: NativeTestDefinition) -> Seq<char> {
    "NATIVE-TEST:"@ + d.id@
}

/// The edges of one check, by their JSON text: its definition file defines its
/// obligation, every input is relevant to it, and every piece of its evidence is
/// evidence for it.
pub open spec fn check_edge_keys(roots: VerificationRoots, d: NativeTestDefinition, inputs: Seq<InputFingerprint>, evidence: Seq<NativeTestEvidence>) -> Seq<Seq<char>> {
    seq![edge_json_parts("Artifact"@, identity_of("spec"@, roots.specification_root@, d.source@), LinkKind::Defines, "ProofObligation"@, obligation_of(d))]
        + inputs.map_values(|f: InputFingerprint| edge_json_parts("Artifact"@, f.source@, LinkKind::RelevantTo, "ProofObligation"@, obligation_of(d)))
        + evidence_keys(d, evidence)
}

/// The evidence edges of one check, in the order of the evidence.
pub open spec fn evidence_keys(d: NativeTestDefinition, evidence: Seq<NativeTestEvidence>) -> Seq<Seq<char>>
    decreases evidence.len(),
{
    if evidence.len() == 0 {
        Seq::empty()
    } else {
        let k = evidence_keys(d, evidence.drop_last());
        if evidence.last().definition_id@ == d.id@ {
            k.push(edge_json_parts("ProofObligation"@, obligation_of(d), LinkKind::EvidenceFor, "Evidence"@, evidence.last().id.0@))
        } else {
            k
        }
    }
}

/// The edges of the first `n` checks, by their JSON text.
pub open spec fn all_edge_keys(roots: VerificationRoots, defs: Seq<NativeTestDefinition>, inputs: Seq<Vec<InputFingerprint>>, evidence: Seq<NativeTestEvidence>, n: int) -> Seq<Seq<char>>
    decreases n,
{
    if n <= 0 {
        Seq::empty()
    } else {
        all_edge_keys(roots, defs, inputs, evidence, n - 1) + check_edge_keys(roots, defs[n - 1], inputs[n - 1]@, evidence)
    }
}

fn check_edges(roots: &VerificationRoots, d: &NativeTestDefinition, inputs: &Vec<InputFingerprint>, evidence: &Vec<NativeTestEvidence>, out: &mut Vec<GraphEdge>)
    ensures
        crate::project::edge_keys(final(out)@) == crate::project::edge_keys(old(out)@) + check_edge_keys(*roots, *d, inputs@, evidence@),
{
    let ghost o0 = crate::project::edge_keys(out@);
    let ob = cat("NATIVE-TEST:", d.id.as_str());
    let source = roots.spec_identity(d.source.as_str());
    crate::project::push_edge(out, GraphEdge {
        from: GraphNode::Artifact(ArtifactId(source)),
        kind: LinkKind::Defines,
        to: GraphNode::ProofObligation(ProofObligationId(ob.clone())),
    });
    let ghost o1 = crate::project::edge_keys(out@);
    let ghost rel = inputs@.map_values(|f: InputFingerprint| edge_json_parts("Artifact"@, f.source@, LinkKind::RelevantTo, "ProofObligation"@, obligation_of(*d)));
    let mut i: usize = 0;
    while i < inputs.len()
        invariant
            i <= inputs@.len(),
            ob@ == obligation_of(*d),
            rel == inputs@.map_values(|f: InputFingerprint| edge_json_parts("Artifact"@, f.source@, LinkKind::RelevantTo, "ProofObligation"@, obligation_of(*d))),
            crate::project::edge_keys(out@) == o1 + rel.take(i as int),
        decreases inputs.len() - i,
    {
        crate::project::push_edge(out, GraphEdge {
            from: GraphNode::Artifact(ArtifactId(inputs[i].source.clone())),
            kind: LinkKind::RelevantTo,
            to: GraphNode::ProofObligation(ProofObligationId(ob.clone())),
        });
        proof {
            assert(o1 + rel.take(i + 1) =~= (o1 + rel.take(i as int)).push(rel[i as int]));
        }
        i = i + 1;
    }
    let ghost o2 = crate::project::edge_keys(out@);
    let mut j: usize = 0;
    while j < evidence.len()
        invariant
            j <= evidence@.len(),
            ob@ == obligation_of(*d),
            crate::project::edge_keys(out@) == o2 + evidence_keys(*d, evidence@.take(j as int)),
        decreases evidence.len() - j,
    {
        proof {
            assert(evidence@.take(j + 1).drop_last() =~= evidence@.take(j as int));
            assert(evidence@.take(j + 1).last() == evidence@[j as int]);
        }
        if str_eq(evidence[j].definition_id.as_str(), d.id.as_str()) {
            crate::project::push_edge(out, GraphEdge {
                from: GraphNode::ProofObligation(ProofObligationId(ob.clone())),
                kind: LinkKind::EvidenceFor,
                to: GraphNode::Evidence(EvidenceId(evidence[j].id.0.clone())),
            });
            proof {
                assert(o2 + evidence_keys(*d, evidence@.take(j + 1)) =~= (o2 + evidence_keys(*d, evidence@.take(j as int))).push(
                    edge_json_parts("ProofObligation"@, obligation_of(*d), LinkKind::EvidenceFor, "Evidence"@, evidence@[j as int].id.0@)));
            }
        }
        j = j + 1;
    }
    proof {
        assert(evidence@.take(evidence@.len() as int) =~= evidence@);
        assert(rel.take(inputs@.len() as int) =~= rel);
        assert(crate::project::edge_keys(out@) =~= o0 + check_edge_keys(*roots, *d, inputs@, evidence@));
    }
}

/// The graph edges of the checks, sorted by their JSON text and each once:
/// `inputs[i]` are the current fingerprints of the inputs of `definitions[i]`, and
/// `evidence` is all recorded native test evidence.
pub fn graph_edges(
    roots: &VerificationRoots,
    definitions: &Vec<NativeTestDefinition>,
    inputs: &Vec<Vec<InputFingerprint>>,
    evidence: &Vec<NativeTestEvidence>,
) -> (r: Vec<GraphEdge>)
    requires
        inputs@.len() == definitions@.len(),
    ensures
        crate::keyed::strictly_sorted(r@),
        forall|k: Seq<char>| #[trigger] crate::keyed::has_key(r@, k)
            <==> all_edge_keys(*roots, definitions@, inputs@, evidence@, definitions@.len() as int).contains(k),
{
    let mut out: Vec<GraphEdge> = Vec::new();
    let mut i: usize = 0;
    while i < definitions.len()
        invariant
            i <= definitions@.len(),
            inputs@.len() == definitions@.len(),
            crate::project::edge_keys(out@) == all_edge_keys(*roots, definitions@, inputs@, evidence@, i as int),
        decreases definitions.len() - i,
    {
        check_edges(roots, &definitions[i], &inputs[i], evidence, &mut out);
        i = i + 1;
    }
    let ghost raw = out@;
    let r = crate::project::sort_edges(out);
    proof {
        crate::project::lemma_kept_edge_keys(raw, r@);
    }
    r
}

} // verus!
