use adrproof::adr::Error;
use adrproof::check::Verdict;
use adrproof::evidence::{fingerprint_bytes, Evidence, InputFingerprint, VerificationStatus};
use adrproof::gate::{check_pin, evaluate, Report, RequiredSet, Reviewer, ScopeSnapshot};
use adrproof::inventory::{inspect, validate, DecisionEntry, DeclaredMapping, Inventory, RequirementEntry, RequirementKind};
use adrproof::roots::VerificationRoots;
use adrproof::project::{CoverageScope, EvidenceId, FactCoverage, ProjectModel, ProofObligationId, WorldAssumption};
use adrproof::solver::{parse_core, z3_result};
use adrproof::quint::{check_outcome, model_evidence, precheck_outcome, version_outcome, CompletionSemantics, ExpectedModelCheckerOutcome, ExplorationSemantics, FormalModelAuthority, ModelCheckDefinition, ModelCheckerBackend, ModelPropertyKind};
use adrproof::model_stats::parse_stats;
use adrproof::model_bindings::{binding_failure_outcome, quint_literal, validate_model_bindings, ConfigValue};

const EMPTY_SHA256: &str = "e3b0c44298fc1c149afbf4c8996fb92427ae41e4649b934ca495991b7852b855";

fn coverage(relation: &str, world: WorldAssumption, scope: CoverageScope) -> FactCoverage {
    FactCoverage {
        relation: relation.into(),
        provider: "test".into(),
        world,
        scope,
        qualifiers: Vec::new(),
        statement: "test completeness claim".into(),
        diagnostics: Vec::new(),
    }
}

#[test]
fn typed_scoped_coverage_resolves_uncertainty_conservatively() {
    let mut model = ProjectModel::default();
    model.fact_coverage = vec![
        coverage("foreign_key", WorldAssumption::Closed, CoverageScope::Global),
        coverage("foreign_key", WorldAssumption::Partial, CoverageScope::Schema("analytics".into())),
        coverage("primary_key", WorldAssumption::Closed, CoverageScope::Table("public.entity".into())),
        coverage("primary_key", WorldAssumption::Partial, CoverageScope::Global),
    ];
    assert_eq!(
        model.coverage_for("foreign_key", &CoverageScope::Table("public.entity".into())),
        Some(WorldAssumption::Closed)
    );
    assert_eq!(
        model.coverage_for("foreign_key", &CoverageScope::Table("analytics.tmp".into())),
        Some(WorldAssumption::Partial)
    );
    assert_eq!(
        model.coverage_for("primary_key", &CoverageScope::Table("public.entity".into())),
        Some(WorldAssumption::Partial),
        "global uncertainty must override a local completeness claim"
    );
}

#[test]
fn fingerprint_of_empty_bytes_is_the_known_digest() {
    let f = fingerprint_bytes("s", b"");
    assert_eq!(f.source, "s");
    assert_eq!(f.sha256, EMPTY_SHA256);
    assert_eq!(f.sha256.len(), 64);
}

// ---------------------------------------------------------------------------
// Gate
// ---------------------------------------------------------------------------

fn hash_of(bytes: &[u8]) -> String {
    fingerprint_bytes("x", bytes).sha256
}

fn approved_set() -> RequiredSet {
    RequiredSet {
        schema_version: "adrproof-required-set-v1alpha1".into(),
        decision: "approved".into(),
        reviewer: Some(Reviewer {
            kind: "human_attestation".into(),
            identity: "alice@example.org".into(),
            approval_reference: "ticket 7".into(),
        }),
        rationale: Some("release baseline".into()),
        scope: snapshot(),
        global_obligation: "PO:project-consistency".into(),
        backend_version: "Z3 4.13.4".into(),
        timeout_ms: 10_000,
        required_coverage: Vec::new(),
    }
}

fn snapshot() -> ScopeSnapshot {
    ScopeSnapshot {
        inventory_inputs: vec![InputFingerprint { source: "spec:requirements.json".into(), sha256: EMPTY_SHA256.into() }],
        constraints: vec!["A:C1".into()],
        review_heads: vec![("REQ-1".into(), EMPTY_SHA256.into())],
        native_definitions: Vec::new(),
    }
}

fn run_gate(pin: &str, baseline: &[u8], set: &RequiredSet, scope: &ScopeSnapshot, evidence: &Vec<Evidence>) -> Result<Report, Error> {
    evaluate(pin, baseline, set, scope, true, ProjectModel::default(), evidence, &Vec::new(), Vec::new())
}

#[test]
fn gate_rejects_a_malformed_pin_and_a_mismatched_baseline() {
    let set = approved_set();
    match run_gate("ABC", b"baseline", &set, &snapshot(), &Vec::new()) {
        Err(Error::Diagnostic { message, .. }) => assert!(message.contains("64 lowercase hexadecimal")),
        other => panic!("unexpected {other:?}"),
    }
    match check_pin(&"0".repeat(64), b"baseline") {
        Err(Error::Diagnostic { message, .. }) => assert_eq!(message, "BASELINE_PIN_MISMATCH"),
        other => panic!("unexpected {other:?}"),
    }
    assert!(check_pin(&hash_of(b"baseline"), b"baseline").is_ok());
}

#[test]
fn gate_requires_an_explicit_approval() {
    let mut set = approved_set();
    set.decision = "draft".into();
    let pin = hash_of(b"baseline");
    assert!(matches!(run_gate(&pin, b"baseline", &set, &snapshot(), &Vec::new()), Err(Error::Diagnostic { .. })));
}

fn global_evidence(status: VerificationStatus) -> Evidence {
    Evidence {
        id: EvidenceId("EVIDENCE:1".into()),
        obligation: ProofObligationId("PO:project-consistency".into()),
        backend: "z3".into(),
        backend_version: "Z3 4.13.4".into(),
        configuration_sha256: "other".into(),
        inputs: Vec::new(),
        result_at_execution: status,
        recorded_at_unix_nanos: 1,
        diagnostics: Vec::new(),
    }
}

#[test]
fn gate_verdict_is_incomplete_without_current_evidence_and_baseline_is_pinned() {
    let set = approved_set();
    let pin = hash_of(b"baseline");
    let report = run_gate(&pin, b"baseline", &set, &snapshot(), &Vec::new()).unwrap();
    assert_eq!(report.result, "INCOMPLETE");
    assert_eq!(report.baseline_sha256, pin);
    assert_eq!(report.checks[0].status, VerificationStatus::Unverified);
    assert!(report.scope_matches);
    assert_eq!(report.does_not_prove.len(), 2);
    assert!(report.does_not_prove[0].starts_with("Program correctness"));
    // Evidence under another configuration is stale, never a pass.
    let report = run_gate(&pin, b"baseline", &set, &snapshot(), &vec![global_evidence(VerificationStatus::Pass)]).unwrap();
    assert_eq!(report.checks[0].status, VerificationStatus::Stale);
    assert_eq!(report.result, "INCOMPLETE");
    let mut drifted = snapshot();
    drifted.constraints.push("A:C2".into());
    let report = run_gate(&pin, b"baseline", &set, &drifted, &Vec::new()).unwrap();
    assert!(!report.scope_matches);
    assert!(report.diagnostics.iter().any(|d| d.starts_with("REQUIRED_SCOPE_DRIFT")));
}

// ---------------------------------------------------------------------------
// Inventory
// ---------------------------------------------------------------------------

fn requirement(id: &str, kind: RequirementKind, mapping: DeclaredMapping, constraints: &[&str]) -> RequirementEntry {
    RequirementEntry {
        id: id.into(),
        kind,
        start_line: 1,
        end_line: 1,
        mapping,
        constraints: constraints.iter().map(|c| c.to_string()).collect(),
        reason: None,
    }
}

fn inventory(entries: Vec<DecisionEntry>) -> Inventory {
    Inventory { schema_version: "adrproof-requirements-v1alpha1".into(), adrs: entries }
}

fn adr_text(id: &str) -> String {
    format!("---\nid: {id}\nstatus: accepted\n---\n\n```adrlogic\nbool x;\nrule C1 \"x holds\" {{ x; }}\n```\n")
}

#[test]
fn inventory_validation_rejects_malformed_entries() {
    assert!(validate(&inventory(Vec::new())).is_err());
    let mut bad = inventory(vec![DecisionEntry { id: "A".into(), source: "a.md".into(), requirements: Vec::new() }]);
    bad.schema_version = "v0".into();
    assert!(validate(&bad).is_err());
    let unmapped_with_target = inventory(vec![DecisionEntry {
        id: "A".into(),
        source: "a.md".into(),
        requirements: vec![requirement("R1", RequirementKind::Normative, DeclaredMapping::Unmapped, &["A:C1"])],
    }]);
    assert!(validate(&unmapped_with_target).is_err());
    let duplicate = inventory(vec![DecisionEntry {
        id: "A".into(),
        source: "a.md".into(),
        requirements: vec![
            requirement("R1", RequirementKind::Normative, DeclaredMapping::Mapped, &["A:C1"]),
            requirement("R1", RequirementKind::Normative, DeclaredMapping::Mapped, &["A:C1"]),
        ],
    }]);
    assert!(validate(&duplicate).is_err());
}

#[test]
fn inventory_records_without_reviewing_and_reports_unlisted_adrs() {
    let requirements = b"{}";
    let documents = vec![("a.md".to_string(), adr_text("A")), ("b.md".to_string(), adr_text("B"))];
    let inv = inventory(vec![DecisionEntry {
        id: "A".into(),
        source: "a.md".into(),
        requirements: vec![requirement("R1", RequirementKind::Normative, DeclaredMapping::Mapped, &["A:C1"])],
    }]);
    let report = inspect(requirements, &inv, &documents, "/spec").unwrap();
    assert_eq!(report.review_status, "NOT_ASSESSED");
    assert_eq!(report.verification_status, "NOT_RUN");
    assert_eq!(report.result, "INCOMPLETE");
    assert_eq!(report.gaps.len(), 1);
    assert_eq!(report.gaps[0].code, "uninventoried_adr");
    assert_eq!(report.gaps[0].decision, "B");
    assert_eq!(report.inputs.len(), 3);
    assert!(report.inputs.iter().any(|f| f.source == "spec:requirements.json" && f.sha256 == hash_of(requirements)));
    assert!(report.inputs.windows(2).all(|w| w[0].source <= w[1].source));
    let b = report.decisions.iter().find(|d| d.id == "B").unwrap();
    assert_eq!(b.source, "spec:b.md");
    assert!(!b.inventoried && b.present);
    let a = report.decisions.iter().find(|d| d.id == "A").unwrap();
    assert!(a.inventoried && a.present);
}

#[test]
fn inventory_with_every_adr_listed_and_mapped_is_recorded_unreviewed() {
    let documents = vec![("a.md".to_string(), adr_text("A"))];
    let inv = inventory(vec![DecisionEntry {
        id: "A".into(),
        source: "a.md".into(),
        requirements: vec![requirement("R1", RequirementKind::Normative, DeclaredMapping::Mapped, &["A:C1"])],
    }]);
    let report = inspect(b"{}", &inv, &documents, "/spec").unwrap();
    assert!(report.gaps.is_empty(), "{:?}", report.gaps);
    assert_eq!(report.result, "RECORDED_UNREVIEWED");
}

#[test]
fn inventory_reports_missing_adrs_and_unmapped_requirements() {
    let documents = vec![("a.md".to_string(), adr_text("A"))];
    let inv = inventory(vec![
        DecisionEntry {
            id: "A".into(),
            source: "a.md".into(),
            requirements: vec![RequirementEntry {
                reason: None,
                ..requirement("R1", RequirementKind::Normative, DeclaredMapping::Unmapped, &[])
            }],
        },
        DecisionEntry { id: "Z".into(), source: "z.md".into(), requirements: Vec::new() },
    ]);
    let report = inspect(b"{}", &inv, &documents, "/spec").unwrap();
    let codes: Vec<&str> = report.gaps.iter().map(|g| g.code.as_str()).collect();
    assert_eq!(codes, vec!["missing_adr", "unmapped_requirement"]);
}

// ---------------------------------------------------------------------------
// Solver output
// ---------------------------------------------------------------------------

#[test]
fn unsat_core_names_are_unquoted_sorted_and_unique() {
    let core = parse_core("unsat\n(|Z:C2| |A:C1|\n |A:C1|)\n");
    assert_eq!(core, vec!["A:C1".to_string(), "Z:C2".to_string()]);
    assert!(parse_core("sat\n").is_empty());
}

#[test]
fn solver_output_gives_the_verdict() {
    let r = z3_result("unsat\n(|A:C1|)\n", false, "", 5, 10_000, "Z3 4.13.4").unwrap();
    assert_eq!(r.verdict, Verdict::Unsat);
    assert_eq!(r.core, vec!["A:C1".to_string()]);
    assert_eq!(z3_result("sat\n", true, "", 5, 10_000, "v").unwrap().verdict, Verdict::Sat);
    assert_eq!(z3_result("unknown\n", true, "", 10_000, 10_000, "v").unwrap().verdict, Verdict::Timeout);
    assert_eq!(z3_result("unknown\n", true, "", 9, 10_000, "v").unwrap().verdict, Verdict::Unknown);
    assert_eq!(z3_result("(error)\n", true, "", 9, 10_000, "v").unwrap().verdict, Verdict::SolverFailure);
    match z3_result("", false, "crashed", 1, 10_000, "v") {
        Err(Error::SolverFailure(m)) => assert_eq!(m, "crashed"),
        other => panic!("unexpected {other:?}"),
    }
}

#[test]
fn tlc_statistics_are_read_from_the_output() {
    let out = "TLC2 Version 2.19\n3 states generated, 3 distinct states found, 0 states left on queue.\nThe depth of the complete state graph search is 3.\n[ok] No violation found (10ms).\n";
    let stats = adrproof::model_stats::parse_stats(out, 10);
    assert_eq!(stats.generated_states, Some(3));
    assert_eq!(stats.distinct_states, Some(3));
    assert_eq!(stats.states_left, Some(0));
    assert_eq!(stats.depth, Some(3));
    assert_eq!(stats.duration_ms, 10);
    let none = adrproof::model_stats::parse_stats("nothing here\n", 0);
    assert_eq!(none.distinct_states, None);
    assert_eq!(none.depth, None);
}

#[test]
fn identities_resolve_back_to_their_files() {
    let roots = VerificationRoots::explicit("/work/app", "/work/spec", "/work/state", "/");
    let project = roots.project_identity("/work/app/crates/domain/Cargo.toml");
    assert_eq!(project, "project:crates/domain/Cargo.toml");
    assert_eq!(roots.resolve_identity(&project), Some("/work/app/crates/domain/Cargo.toml".to_string()));
    let spec = roots.spec_identity("/work/spec/adr/a.md");
    assert_eq!(spec, "spec:adr/a.md");
    assert_eq!(roots.resolve_identity(&spec), Some("/work/spec/adr/a.md".to_string()));
    assert_eq!(roots.resolve_identity("other:x"), None);
}

fn tlc_definition() -> ModelCheckDefinition {
    ModelCheckDefinition {
        id: "SAFE-001".into(),
        model_id: "PIPELINE".into(),
        model: "models/pipeline.qnt".into(),
        property_id: "WatermarkNeverMovesBackward".into(),
        property_name: "safe".into(),
        property_kind: ModelPropertyKind::Invariant,
        expected_outcome: ExpectedModelCheckerOutcome::NoCounterexample,
        backend: ModelCheckerBackend::Tlc,
        quint_version: "0.32.0".into(),
        backend_version: "2.19".into(),
        main: None,
        init: "init".into(),
        step: "step".into(),
        constants: vec![("EVENTS".into(), "[1]".into())],
        bounds: vec![("workers".into(), "2".into())],
        model_bindings: Vec::new(),
        fairness: Vec::new(),
        max_steps: None,
        timeout_ms: 1_000,
        semantic_flags: Vec::new(),
        authority: FormalModelAuthority {
            claim: "property holds in the checked formal model".into(),
            scope: "configured finite state space".into(),
            does_not_prove: vec!["implementation conformance".into()],
        },
        source: "/spec/models/checks/safe.json".into(),
    }
}

#[test]
fn tlc_pass_evidence_is_exhaustive_formal_model_only_with_stats() {
    let definition = tlc_definition();
    assert!(precheck_outcome(&definition).is_none());
    assert!(version_outcome(&definition, false, true, "0.32.0\n", "").is_none());
    let output = "# APALACHE version: 0.56.1 | build: test\nTLC2 Version 2.19 of 08 August 2024\n3 states generated, 3 distinct states found, 0 states left on queue.\nThe depth of the complete state graph search is 3.\n[ok] No violation found (10ms).\n";
    let combined = format!("{output}\n");
    let outcome = check_outcome(&definition, false, true, &combined);
    let stats = parse_stats(&combined, 10);
    let evidence = model_evidence(&definition, Vec::new(), "m".into(), "p".into(), "c".into(), outcome, stats, 7);
    assert_eq!(evidence.result_at_execution, VerificationStatus::Pass);
    assert_eq!(evidence.completion, CompletionSemantics::Complete);
    assert_eq!(evidence.exploration, ExplorationSemantics::ExhaustiveFinite);
    assert_eq!(evidence.explored_state_stats.distinct_states, Some(3));
    assert_eq!(evidence.explored_state_stats.depth, Some(3));
    assert_eq!(evidence.backend_version, "2.19");
    assert_eq!(evidence.obligation.0, "MODEL:SAFE-001");
    assert_eq!(evidence.id.0, "pending");
    assert!(evidence.authority.does_not_prove.contains(&"implementation conformance".to_string()));
    assert_eq!(evidence.constants, vec![("EVENTS".to_string(), "[1]".to_string())]);
}

#[test]
fn inspect_fails_exactly_on_unusable_checkouts() {
    let entry = |source: &str, start: usize, end: usize| {
        let mut r = requirement("R1", RequirementKind::Normative, DeclaredMapping::Mapped, &["A:C1"]);
        r.start_line = start;
        r.end_line = end;
        inventory(vec![DecisionEntry { id: "A".into(), source: source.into(), requirements: vec![r] }])
    };
    let one = vec![("a.md".to_string(), adr_text("A"))];
    assert!(inspect(b"{}", &entry("a.md", 1, 1), &one, "/spec").is_ok());
    // a selection past the end of its document
    assert!(inspect(b"{}", &entry("a.md", 1, 500), &one, "/spec").is_err());
    // a selection of blank lines
    assert!(inspect(b"{}", &entry("a.md", 5, 5), &one, "/spec").is_err());
    // two documents with the same ADR
    let twice = vec![("a.md".to_string(), adr_text("A")), ("b.md".to_string(), adr_text("A"))];
    assert!(inspect(b"{}", &entry("a.md", 1, 1), &twice, "/spec").is_err());
    // a document that holds no ADR
    let broken = vec![("a.md".to_string(), "no front matter".to_string())];
    assert!(inspect(b"{}", &entry("a.md", 1, 1), &broken, "/spec").is_err());
}

#[test]
fn inspect_reports_each_gap_kind_of_the_inventory() {
    let documents = vec![
        ("a.md".to_string(), adr_text("A")),
        ("b.md".to_string(), adr_text("B")),
        ("c.md".to_string(), adr_text("C")),
    ];
    let mut partial = requirement("R1", RequirementKind::Normative, DeclaredMapping::Partial, &["A:C1", "A:C9"]);
    partial.reason = Some("the rest is manual".into());
    let mut rationale = requirement("R3", RequirementKind::Rationale, DeclaredMapping::Unmapped, &[]);
    rationale.reason = Some("context only".into());
    let inv = inventory(vec![
        DecisionEntry { id: "A".into(), source: "a.md".into(), requirements: vec![partial] },
        DecisionEntry {
            id: "B".into(),
            source: "elsewhere.md".into(),
            requirements: vec![requirement("R2", RequirementKind::Normative, DeclaredMapping::Mapped, &["B:C1"])],
        },
        DecisionEntry { id: "C".into(), source: "c.md".into(), requirements: vec![rationale] },
        DecisionEntry { id: "Z".into(), source: "z.md".into(), requirements: Vec::new() },
    ]);
    let report = inspect(b"{}", &inv, &documents, "/spec").unwrap();
    assert_eq!(report.result, "INCOMPLETE");
    let gaps: Vec<(&str, &str, Option<&str>, Option<&str>)> = report
        .gaps
        .iter()
        .map(|g| (g.code.as_str(), g.decision.as_str(), g.requirement.as_deref(), g.target.as_deref()))
        .collect();
    assert_eq!(
        gaps,
        vec![
            ("adr_source_mismatch", "B", None, Some("elsewhere.md")),
            ("missing_active_constraint", "A", Some("R1"), Some("A:C9")),
            ("missing_adr", "Z", None, Some("z.md")),
            ("no_normative_requirements", "C", None, None),
            ("partial_mapping", "A", Some("R1"), None),
            ("uninventoried_adr", "B", None, None),
        ]
    );
    let unresolved: Vec<_> = report.decisions.iter().filter(|d| d.status.is_none()).collect();
    assert_eq!(unresolved.len(), 2);
    let b = unresolved.iter().find(|d| d.id == "B").unwrap();
    assert_eq!(b.source, "spec:elsewhere.md");
    assert!(b.inventoried && !b.present && !b.active);
    assert_eq!(b.inactive_reason.as_deref(), Some("unresolved_inventory_entry"));
    assert_eq!(report.decisions.len(), 5);
}

const PIPELINE_MODEL: &str = "module pipeline {\n  pure val ADRPROOF_EVENT_IDS = Set(1)\n  pure val ADRPROOF_WORKERS = 2\n  var x: int\n  action init = x' = 0\n  action step = x' = x\n  val safe = x == 0\n}\n";

fn configured(workers: &str) -> (Vec<(String, ConfigValue)>, Vec<(String, ConfigValue)>) {
    (
        vec![("EVENTS".to_string(), ConfigValue::Array(vec![ConfigValue::Number("1".into())]))],
        vec![("workers".to_string(), ConfigValue::Number(workers.into()))],
    )
}

#[test]
fn quint_model_bindings_machine_check_declared_constants_and_bounds() {
    let mut definition = tlc_definition();
    definition.model_bindings = vec![
        ("bounds.workers".into(), "ADRPROOF_WORKERS".into()),
        ("constants.EVENTS".into(), "ADRPROOF_EVENT_IDS".into()),
    ];
    let (constants, bounds) = configured("2");
    assert_eq!(validate_model_bindings(&definition, &constants, &bounds, PIPELINE_MODEL), Ok(()));

    let (constants, bounds) = configured("3");
    let problem = validate_model_bindings(&definition, &constants, &bounds, PIPELINE_MODEL).unwrap_err();
    let mismatch = binding_failure_outcome(&definition, problem);
    assert_eq!(mismatch.status, VerificationStatus::Error);
    assert_eq!(mismatch.completion, CompletionSemantics::InfrastructureError);
    assert!(mismatch.diagnostics.iter().any(|diagnostic| diagnostic.contains("model binding mismatch")));
}

#[test]
fn model_binding_errors_name_the_first_failing_binding() {
    let mut definition = tlc_definition();
    let (constants, bounds) = configured("3");
    definition.model_bindings = vec![("bounds.workers".into(), "ADRPROOF_WORKERS".into())];
    assert_eq!(
        validate_model_bindings(&definition, &constants, &bounds, PIPELINE_MODEL),
        Err("model binding mismatch for `bounds.workers`: configuration requires `3`, but `ADRPROOF_WORKERS` is `2`".to_string())
    );
    definition.model_bindings = vec![("limits.workers".into(), "ADRPROOF_WORKERS".into())];
    assert_eq!(
        validate_model_bindings(&definition, &constants, &bounds, PIPELINE_MODEL),
        Err("model binding `limits.workers` does not select a configured constant or bound".to_string())
    );
    definition.model_bindings = vec![("constants.EVENTS".into(), "MISSING".into())];
    assert_eq!(
        validate_model_bindings(&definition, &constants, &bounds, PIPELINE_MODEL),
        Err("model binding `constants.EVENTS` requires `pure val MISSING = ...` in models/pipeline.qnt".to_string())
    );
    let objects = vec![("EVENTS".to_string(), ConfigValue::Object)];
    definition.model_bindings = vec![("constants.EVENTS".into(), "ADRPROOF_EVENT_IDS".into())];
    assert_eq!(
        validate_model_bindings(&definition, &objects, &bounds, PIPELINE_MODEL),
        Err("model binding `constants.EVENTS` cannot be represented in Quint: only booleans, numbers, strings, and arrays are supported".to_string())
    );
    definition.model_bindings = Vec::new();
    assert_eq!(validate_model_bindings(&definition, &objects, &bounds, ""), Ok(()));
}

#[test]
fn quint_literals_follow_the_configured_json() {
    assert_eq!(quint_literal(&ConfigValue::Bool(true)), Ok("true".to_string()));
    assert_eq!(quint_literal(&ConfigValue::Number("42".into())), Ok("42".to_string()));
    assert_eq!(quint_literal(&ConfigValue::Text("a\"b".into())), Ok("\"a\\\"b\"".to_string()));
    let nested = ConfigValue::Array(vec![
        ConfigValue::Number("1".into()),
        ConfigValue::Array(vec![ConfigValue::Text("x".into())]),
    ]);
    assert_eq!(quint_literal(&nested), Ok("Set(1, Set(\"x\"))".to_string()));
    assert_eq!(quint_literal(&ConfigValue::Array(Vec::new())), Ok("Set()".to_string()));
    assert!(quint_literal(&ConfigValue::Array(vec![ConfigValue::Null])).is_err());
}

#[test]
fn report_exit_codes_follow_the_verdict() {
    let pin = hash_of(b"baseline");
    let mut report = run_gate(&pin, b"baseline", &approved_set(), &snapshot(), &Vec::new()).unwrap();
    assert_eq!(report.exit_code(), 3);
    for (result, code) in [("PASS", 0), ("FAIL", 1), ("ERROR", 2), ("INCOMPLETE", 3)] {
        report.result = result.into();
        assert_eq!(report.exit_code(), code);
    }
    let documents = vec![("a.md".to_string(), adr_text("A"))];
    let listed = inventory(vec![DecisionEntry {
        id: "A".into(),
        source: "a.md".into(),
        requirements: vec![requirement("R1", RequirementKind::Normative, DeclaredMapping::Mapped, &["A:C1"])],
    }]);
    assert_eq!(inspect(b"{}", &listed, &documents, "/spec").unwrap().exit_code(), 0);
    let unlisted = vec![("a.md".to_string(), adr_text("A")), ("b.md".to_string(), adr_text("B"))];
    assert_eq!(inspect(b"{}", &listed, &unlisted, "/spec").unwrap().exit_code(), 3);
}
