use adrproof::bundle::{self, BundleSignature};
use adrproof::correspondence::{
    self, CorrespondenceDefinition, FunctionCandidate, FunctionFacts, RustFunctionSelector, TransitionCorrespondence,
};
use adrproof::evidence::{self, EvidenceValidity, InputFingerprint, VerificationStatus};
use adrproof::native_test::{self, NativeTestCase, NativeTestCaseStatus, NativeTestDefinition, NativeTestReport};
use adrproof::project::{EvidenceId, LinkKind};
use adrproof::quint::{self, DependencyEvidence, ModelValidationDefinition, ScenarioModelMapping};
use adrproof::roots::VerificationRoots;
use adrproof::scenario::{InputRoot, ScenarioInput};

const PROJECT: &str = "/work/project";
const SPEC: &str = "/work/spec";
const STATE: &str = "/work/state";

fn roots() -> VerificationRoots {
    VerificationRoots::explicit(PROJECT, SPEC, STATE, "/")
}

fn strings(items: &[&str]) -> Vec<String> {
    items.iter().map(|s| s.to_string()).collect()
}

// ---------------------------------------------------------------------------
// Native test reports
// ---------------------------------------------------------------------------

fn native_definition() -> NativeTestDefinition {
    NativeTestDefinition {
        id: "INTEGRATION".into(),
        version: "1".into(),
        claim: "selected native suite passes".into(),
        authority: "the imported native test execution only".into(),
        does_not_prove: strings(&["all environments"]),
        command: "cargo nextest run --workspace --run-ignored all".into(),
        working_directory: "backend".into(),
        minimum_passed: 2,
        maximum_skipped: 0,
        required_tests: strings(&["worker::heartbeat"]),
        inputs: vec![ScenarioInput { root: InputRoot::Project, path: "worker.rs".into() }],
        excluded_inputs: Vec::new(),
        source: format!("{SPEC}/native-tests/checks/integration.json"),
    }
}

fn native_report(definition: &NativeTestDefinition) -> NativeTestReport {
    NativeTestReport {
        schema_version: "nextest-summary-v1".into(),
        runner: "cargo-nextest".into(),
        runner_version: "0.9".into(),
        command: definition.command.clone(),
        working_directory: definition.working_directory.clone(),
        result: VerificationStatus::Pass,
        passed: 2,
        failed: 0,
        skipped: 0,
        duration_seconds_bits: 1.25f64.to_bits(),
        tests: vec![NativeTestCase { name: "worker::heartbeat".into(), status: NativeTestCaseStatus::Pass }],
        diagnostics: Vec::new(),
    }
}

fn native_files(definition: &NativeTestDefinition) -> Vec<ScenarioInput> {
    definition.inputs.iter().map(|i| ScenarioInput { root: i.root, path: i.path.clone() }).collect()
}

fn native_contents(worker: &str) -> Vec<(String, Vec<u8>)> {
    vec![
        (format!("{SPEC}/native-tests/checks/integration.json"), b"{}\n".to_vec()),
        (format!("{PROJECT}/worker.rs"), worker.as_bytes().to_vec()),
        (format!("{PROJECT}/unrelated.txt"), b"irrelevant\n".to_vec()),
    ]
}

fn native_inputs(definition: &NativeTestDefinition, worker: &str) -> Vec<InputFingerprint> {
    native_test::current_inputs(&roots(), definition, &native_files(definition), &native_contents(worker)).unwrap()
}

#[test]
fn native_test_import_is_non_vacuous_immutable_and_precisely_stale() {
    let definition = native_definition();
    let inputs = native_inputs(&definition, "fn worker() {}\n");
    let evidence = native_test::import(&definition, native_report(&definition), b"report", inputs, b"configuration", 7);
    assert_eq!(evidence.result_at_execution, VerificationStatus::Pass);
    assert!(evidence.non_vacuity.non_empty_execution);
    assert!(evidence.non_vacuity.all_required_observed_pass);
    let current = native_inputs(&definition, "fn worker() {}\n");
    assert_eq!(native_test::assess(&definition, &evidence, &current, b"configuration"), EvidenceValidity::Current);

    // An unrelated file is not an input.
    assert_eq!(native_test::assess(&definition, &evidence, &current, b"configuration"), EvidenceValidity::Current);
    let changed = native_inputs(&definition, "fn changed() {}\n");
    assert_eq!(native_test::assess(&definition, &evidence, &changed, b"configuration"), EvidenceValidity::Stale);
}

#[test]
fn native_test_import_rejects_missing_required_test_and_empty_execution() {
    let definition = native_definition();
    let mut report = native_report(&definition);
    report.passed = 0;
    report.tests.clear();
    let inputs = native_inputs(&definition, "fn worker() {}\n");
    let evidence = native_test::import(&definition, report, b"report", inputs, b"configuration", 7);
    assert_eq!(evidence.result_at_execution, VerificationStatus::Fail);
    assert!(!evidence.non_vacuity.non_empty_execution);
    assert!(!evidence.non_vacuity.all_required_observed_pass);
    assert!(evidence.diagnostics.iter().any(|line| line.contains("required test")));
}

#[test]
fn native_test_diagnostics_name_every_unmet_expectation() {
    let definition = native_definition();
    let mut report = native_report(&definition);
    report.schema_version = "other".into();
    report.command = "cargo test".into();
    report.passed = 1;
    report.skipped = 3;
    let evidence = native_test::import(&definition, report, b"report", Vec::new(), b"configuration", 7);
    assert_eq!(
        evidence.diagnostics,
        vec![
            "expected report schema nextest-summary-v1, observed other".to_string(),
            "expected command `cargo nextest run --workspace --run-ignored all`, observed `cargo test`".to_string(),
            "expected at least 2 passed tests, observed 1".to_string(),
            "expected at most 0 skipped tests, observed 3".to_string(),
        ]
    );
    assert_eq!(evidence.obligation.0, "NATIVE-TEST:INTEGRATION");
    assert_eq!(evidence.report_sha256, evidence::sha256_of(b"report"));
}

#[test]
fn native_test_definitions_need_ids_and_distinct_required_tests() {
    let mut definition = native_definition();
    assert!(native_test::validate_definition(&definition).is_ok());
    definition.required_tests = strings(&["a", "b", "a"]);
    match native_test::validate_definition(&definition) {
        Err(adrproof::adr::Error::ProviderFailure(m)) => {
            assert_eq!(m, format!("{SPEC}/native-tests/checks/integration.json: required_tests contains duplicates"))
        },
        other => panic!("unexpected {other:?}"),
    }
    definition.minimum_passed = 0;
    assert!(matches!(
        native_test::validate_definition(&definition),
        Err(adrproof::adr::Error::ProviderFailure(m)) if m.ends_with("a positive minimum_passed are required")
    ));
}

#[test]
fn excluded_inputs_drop_the_input_and_everything_below_it() {
    let mut definition = native_definition();
    definition.excluded_inputs = vec![ScenarioInput { root: InputRoot::Project, path: "gen".into() }];
    let files = vec![
        ScenarioInput { root: InputRoot::Project, path: "worker.rs".into() },
        ScenarioInput { root: InputRoot::Project, path: "gen/a.rs".into() },
        ScenarioInput { root: InputRoot::Project, path: "generated.rs".into() },
    ];
    let kept = native_test::semantic_inputs(&roots(), &definition, &files);
    let identities: Vec<String> = kept.iter().map(|i| i.identity.clone()).collect();
    assert_eq!(
        identities,
        vec![
            "spec:native-tests/checks/integration.json".to_string(),
            "project:worker.rs".to_string(),
            "project:generated.rs".to_string(),
        ]
    );
}

#[test]
fn latest_native_evidence_wins_by_time_then_identifier() {
    let definition = native_definition();
    let make = |id: &str, at: u128| {
        let mut e = native_test::import(&definition, native_report(&definition), b"r", Vec::new(), b"c", at);
        e.id = EvidenceId(id.into());
        e
    };
    let mut other = make("NATIVE-TEST-EVIDENCE:z", 99);
    other.definition_id = "OTHER".into();
    let all = vec![make("NATIVE-TEST-EVIDENCE:b", 5), other, make("NATIVE-TEST-EVIDENCE:a", 5), make("NATIVE-TEST-EVIDENCE:c", 3)];
    let latest = native_test::latest_assessment(&definition, all, &Vec::new(), b"c").unwrap();
    assert_eq!(latest.evidence.id.0, "NATIVE-TEST-EVIDENCE:b");
    assert_eq!(latest.current_validity, EvidenceValidity::Current);
    assert!(native_test::latest_assessment(&definition, Vec::new(), &Vec::new(), b"c").is_none());
}

#[test]
fn native_graph_connects_definition_inputs_and_evidence() {
    let definition = native_definition();
    let inputs = native_inputs(&definition, "fn worker() {}\n");
    let mut evidence = native_test::import(&definition, native_report(&definition), b"r", Vec::new(), b"c", 1);
    evidence.id = EvidenceId("NATIVE-TEST-EVIDENCE:1".into());
    let edges = native_test::graph_edges(&roots(), &vec![definition], &vec![inputs], &vec![evidence]);
    assert_eq!(edges.len(), 4);
    assert!(edges.iter().any(|e| e.kind == LinkKind::Defines));
    assert_eq!(edges.iter().filter(|e| e.kind == LinkKind::RelevantTo).count(), 2);
    assert!(edges.iter().any(|e| e.kind == LinkKind::EvidenceFor));
}

// ---------------------------------------------------------------------------
// Bundles
// ---------------------------------------------------------------------------

fn state_files() -> Vec<(String, Vec<u8>)> {
    vec![
        ("scenario-evidence/EVIDENCE.json".into(), b"{\"status\":\"PASS\"}\n".to_vec()),
        ("proof-ledger.json".into(), b"{\"entries\":[]}\n".to_vec()),
    ]
}

fn reads_of(manifest: &bundle::BundleManifest, data: &[(String, Vec<u8>)]) -> Vec<Result<Vec<u8>, String>> {
    manifest
        .files
        .iter()
        .map(|f| match data.iter().find(|(p, _)| *p == f.path) {
            Some((_, b)) => Ok(b.clone()),
            None => Err("No such file or directory (os error 2)".into()),
        })
        .collect()
}

fn listing(data: &[(String, Vec<u8>)]) -> Vec<String> {
    data.iter().map(|(p, _)| p.clone()).collect()
}

fn manifest_bytes(manifest: &bundle::BundleManifest) -> Vec<u8> {
    format!("{manifest:?}").into_bytes()
}

#[test]
fn evidence_bundle_verifies_offline_and_detects_tampering() {
    let files = state_files();
    let manifest = bundle::create(&roots(), &files, "0.1.0", 1);
    assert_eq!(manifest.files.len(), 2);
    assert_eq!(manifest.files[0].path, "proof-ledger.json");
    let bytes = manifest_bytes(&manifest);
    let verified = bundle::verify(&manifest, &bytes, &reads_of(&manifest, &files), &listing(&files), None).unwrap();
    assert!(verified.valid);
    assert_eq!(verified.verified_files, 2);

    let mut tampered_data = files.clone();
    tampered_data[0].1 = b"tampered\n".to_vec();
    let tampered = bundle::verify(&manifest, &bytes, &reads_of(&manifest, &tampered_data), &listing(&tampered_data), None).unwrap();
    assert!(!tampered.valid);
    assert!(tampered.diagnostics.iter().any(|line| line.contains("SHA-256 mismatch")));
}

#[test]
fn signed_bundle_requires_a_valid_trusted_ed25519_key() {
    let files = vec![("proof-ledger.json".to_string(), b"{\"entries\":[]}\n".to_vec())];
    let manifest = bundle::create(&roots(), &files, "0.1.0", 1);
    let bytes = manifest_bytes(&manifest);
    let secret = [7u8; 32];
    let public = ed25519_dalek::SigningKey::from_bytes(&secret).verifying_key().to_bytes();
    let envelope = bundle::create_signed(&secret, &bytes);
    let copy = |e: &BundleSignature| BundleSignature {
        schema_version: e.schema_version.clone(),
        algorithm: e.algorithm.clone(),
        manifest_sha256: e.manifest_sha256.clone(),
        public_key: e.public_key.clone(),
        key_id: e.key_id.clone(),
        signature: e.signature.clone(),
    };
    let reads = reads_of(&manifest, &files);

    let verified = bundle::verify_with_key(&manifest, &bytes, &reads, &listing(&files), Some(copy(&envelope)), Some(&public), true).unwrap();
    assert!(verified.valid);
    assert!(verified.signature.present);
    assert!(verified.signature.cryptographically_valid);
    assert_eq!(verified.signature.trusted_key_match, Some(true));

    let wrong = [9u8; 32];
    let untrusted = bundle::verify_with_key(&manifest, &bytes, &reads, &listing(&files), Some(copy(&envelope)), Some(&wrong), true).unwrap();
    assert!(!untrusted.valid);
    assert_eq!(untrusted.signature.trusted_key_match, Some(false));

    let changed = String::from_utf8(bytes.clone()).unwrap().replace("Offline integrity", "Tampered integrity").into_bytes();
    assert_ne!(changed, bytes);
    let tampered = bundle::verify_with_key(&manifest, &changed, &reads, &listing(&files), Some(copy(&envelope)), Some(&public), true).unwrap();
    assert!(!tampered.valid);
    assert!(!tampered.signature.cryptographically_valid);
}

#[test]
fn missing_signature_is_reported_only_when_required() {
    let files = state_files();
    let manifest = bundle::create(&roots(), &files, "0.1.0", 1);
    let bytes = manifest_bytes(&manifest);
    let reads = reads_of(&manifest, &files);
    let required = bundle::verify_with_key(&manifest, &bytes, &reads, &listing(&files), None, None, true).unwrap();
    assert_eq!(required.diagnostics, vec!["bundle signature is required but bundle.sig.json is missing".to_string()]);
    assert!(!required.valid);
    assert_eq!(required.signature.trusted_key_match, None);
    let optional = bundle::verify(&manifest, &bytes, &reads, &listing(&files), None).unwrap();
    assert!(optional.valid);
}

#[test]
fn bundle_listing_and_paths_are_checked() {
    let files = state_files();
    let manifest = bundle::create(&roots(), &files, "0.1.0", 1);
    let bytes = manifest_bytes(&manifest);
    let mut extra = listing(&files);
    extra.push("unlisted.json".into());
    let checked = bundle::verify(&manifest, &bytes, &reads_of(&manifest, &files), &extra, None).unwrap();
    assert_eq!(checked.diagnostics, vec!["bundle data contains missing or unlisted files".to_string()]);
    assert!(bundle::safe_relative("a/b.json").is_ok());
    for unsafe_path in ["/etc/passwd", "../x", "a/../b", "./a", "."] {
        match bundle::safe_relative(unsafe_path) {
            Err(adrproof::adr::Error::ProviderFailure(m)) => assert_eq!(m, format!("unsafe bundle path `{unsafe_path}`")),
            other => panic!("unexpected {other:?}"),
        }
    }
    assert_eq!(bundle::path_identity("a//b/./c.json"), "a/b/c.json");
}

#[test]
fn key_files_hold_raw_or_hexadecimal_keys() {
    let raw = [3u8; 32];
    assert_eq!(bundle::read_key(&raw, "key", "k").unwrap(), raw);
    let hex = format!("  {}\n", "0f".repeat(32));
    assert_eq!(bundle::read_key(hex.as_bytes(), "key", "k").unwrap(), [15u8; 32]);
    match bundle::read_key(b"short", "public key", "/keys/pub") {
        Err(adrproof::adr::Error::ProviderFailure(m)) => {
            assert_eq!(m, "public key must contain exactly 32 raw bytes or 64 hexadecimal characters: /keys/pub")
        },
        other => panic!("unexpected {other:?}"),
    }
}

// ---------------------------------------------------------------------------
// Static correspondence
// ---------------------------------------------------------------------------

const MODEL: &str = "module pipeline {\n  action fetch = true\n  action submit = true\n  action persist = true\n}\n";

fn correspondence_definition() -> CorrespondenceDefinition {
    CorrespondenceDefinition {
        id: "PIPELINE-001".into(),
        claim: "selected syntax corresponds to selected model actions".into(),
        authority: "AST syntax only".into(),
        does_not_prove: strings(&["semantic refinement"]),
        model: "models/pipeline.qnt".into(),
        transitions: vec![TransitionCorrespondence {
            id: "PERSIST".into(),
            rust: RustFunctionSelector { file: "src/pipeline.rs".into(), function: "pipeline".into() },
            model_actions: strings(&["fetch", "submit", "persist"]),
            required_calls: strings(&["mark_processed", "commit"]),
            ordered_calls: strings(&["fetch_pending", "submit", "begin", "record_task", "mark_processed", "commit"]),
            required_string_fragments: strings(&["UPDATE ledger"]),
            required_syntax_fragments: strings(&["mark_processed()"]),
            authority: "named calls in one parsed function".into(),
            does_not_prove: strings(&["resolved call targets"]),
        }],
        source: format!("{SPEC}/correspondence/checks/pipeline.json"),
    }
}

/// The facts of `fn pipeline() { ...calls...; let _ = "UPDATE ledger"; }`.
fn pipeline(calls: &[&str]) -> Vec<FunctionCandidate> {
    let body = calls.iter().map(|c| format!("{c}();")).collect::<String>();
    vec![FunctionCandidate {
        owner: None,
        name: "pipeline".into(),
        facts: FunctionFacts {
            calls: strings(calls),
            strings: strings(&["UPDATE ledger"]),
            syntax: format!("{{{body}let_=\"UPDATEledger\";}}"),
        },
    }]
}

fn correspondence_contents(source: &str) -> Vec<(String, Vec<u8>)> {
    vec![
        (format!("{SPEC}/correspondence/checks/pipeline.json"), b"{}".to_vec()),
        (format!("{SPEC}/models/pipeline.qnt"), MODEL.as_bytes().to_vec()),
        (format!("{PROJECT}/src/pipeline.rs"), source.as_bytes().to_vec()),
    ]
}

#[test]
fn rust_quint_correspondence_pass_stale_fail_restore_pass_is_immutable() {
    let definition = correspondence_definition();
    let good = ["fetch_pending", "submit", "begin", "record_task", "mark_processed", "commit"];
    let bad = ["fetch_pending", "submit", "begin", "record_task", "commit"];
    let inputs = |src: &str| correspondence::current_inputs(&roots(), &definition, &correspondence_contents(src)).unwrap();
    let first = correspondence::run(&roots(), &definition, MODEL, &vec![Ok(pipeline(&good))], inputs("good"), b"definition", 1);
    assert_eq!(first.result_at_execution, VerificationStatus::Pass);
    assert_eq!(correspondence::assess(&first, &inputs("good"), b"definition"), EvidenceValidity::Current);
    assert_eq!(correspondence::assess(&first, &inputs("bad"), b"definition"), EvidenceValidity::Stale);
    let failing = correspondence::run(&roots(), &definition, MODEL, &vec![Ok(pipeline(&bad))], inputs("bad"), b"definition", 2);
    assert_eq!(failing.result_at_execution, VerificationStatus::Fail);
    let restored = correspondence::run(&roots(), &definition, MODEL, &vec![Ok(pipeline(&good))], inputs("good"), b"definition", 3);
    assert_eq!(restored.result_at_execution, VerificationStatus::Pass);
    let id = |e: &correspondence::CorrespondenceEvidence| {
        evidence::evidence_id_with("CORRESPONDENCE-EVIDENCE:", format!("{e:?}").as_bytes()).0
    };
    assert_ne!(id(&first), id(&failing));
    assert_ne!(id(&failing), id(&restored));
}

#[test]
fn rust_quint_correspondence_parse_error_is_error_and_graph_is_typed() {
    let definition = correspondence_definition();
    let mut evidence = correspondence::run(
        &roots(),
        &definition,
        MODEL,
        &vec![Err("expected `)`".into())],
        Vec::new(),
        b"definition",
        1,
    );
    assert_eq!(evidence.result_at_execution, VerificationStatus::Error);
    assert_eq!(evidence.diagnostics, vec!["PERSIST could not parse src/pipeline.rs: expected `)`".to_string()]);
    evidence.id = EvidenceId("CORRESPONDENCE-EVIDENCE:1".into());
    let edges = correspondence::graph_edges(&roots(), &vec![definition], &vec![evidence]);
    assert!(edges.iter().any(|edge| edge.kind == LinkKind::Defines));
    assert!(edges.iter().any(|edge| edge.kind == LinkKind::RelevantTo));
    assert!(edges.iter().any(|edge| edge.kind == LinkKind::EvidenceFor));
}

#[test]
fn correspondence_reports_each_missing_requirement() {
    let definition = correspondence_definition();
    let evidence = correspondence::run(
        &roots(),
        &definition,
        "module pipeline {\n  action fetch = true\n}\n",
        &vec![Ok(pipeline(&["submit", "fetch_pending", "begin", "record_task", "commit"]))],
        Vec::new(),
        b"definition",
        1,
    );
    assert_eq!(evidence.result_at_execution, VerificationStatus::Fail);
    assert_eq!(
        evidence.transitions[0].missing_requirements,
        vec![
            "missing Rust call `mark_processed`".to_string(),
            "Rust calls do not contain required order [fetch_pending -> submit -> begin -> record_task -> mark_processed -> commit]".to_string(),
            "missing Rust AST fragment `mark_processed()`".to_string(),
            "missing Quint action `submit`".to_string(),
            "missing Quint action `persist`".to_string(),
        ]
    );
    assert_eq!(evidence.diagnostics[0], "PERSIST: missing Rust call `mark_processed`");
}

#[test]
fn function_selectors_must_name_one_function() {
    let mut candidates = pipeline(&["a"]);
    assert!(correspondence::function_facts(&candidates, "pipeline").is_ok());
    assert_eq!(correspondence::function_facts(&candidates, "run").unwrap_err(), "missing Rust function `run`");
    candidates.push(FunctionCandidate {
        owner: Some("Worker".into()),
        name: "pipeline".into(),
        facts: FunctionFacts { calls: Vec::new(), strings: Vec::new(), syntax: "{}".into() },
    });
    assert_eq!(correspondence::function_facts(&candidates, "pipeline").unwrap_err(), "ambiguous Rust function selector `pipeline`");
    assert!(correspondence::function_facts(&candidates, "Worker::pipeline").unwrap().calls.is_empty());
}

#[test]
fn model_actions_and_subsequences() {
    let actions = correspondence::model_actions("action a = x\n  action b(y)=1\nval c = 2\naction\td\n");
    assert_eq!(actions, strings(&["a", "b(y)"]));
    assert!(correspondence::is_subsequence(&strings(&["a", "c"]), &strings(&["a", "b", "c"])));
    assert!(!correspondence::is_subsequence(&strings(&["c", "a"]), &strings(&["a", "b", "c"])));
    assert_eq!(correspondence::compact_syntax(" a ( b )\n"), "a(b)");
}

#[test]
fn correspondence_definitions_need_unique_complete_transitions() {
    let mut definition = correspondence_definition();
    assert!(correspondence::validate_definition(&definition).is_ok());
    let again = TransitionCorrespondence {
        id: "PERSIST".into(),
        rust: RustFunctionSelector { file: "src/x.rs".into(), function: "x".into() },
        model_actions: strings(&["fetch"]),
        required_calls: Vec::new(),
        ordered_calls: Vec::new(),
        required_string_fragments: Vec::new(),
        required_syntax_fragments: Vec::new(),
        authority: String::new(),
        does_not_prove: Vec::new(),
    };
    definition.transitions.push(again);
    match correspondence::validate_definition(&definition) {
        Err(adrproof::adr::Error::ProviderFailure(m)) => {
            assert_eq!(m, format!("{SPEC}/correspondence/checks/pipeline.json: duplicate transition id `PERSIST`"))
        },
        other => panic!("unexpected {other:?}"),
    }
}

// ---------------------------------------------------------------------------
// Scenario and model cross-validation
// ---------------------------------------------------------------------------

fn validation() -> ModelValidationDefinition {
    ModelValidationDefinition {
        id: "SCENARIOS".into(),
        claim: "scenarios agree with the model".into(),
        authority: "mapped scenarios only".into(),
        does_not_prove: strings(&["refinement"]),
        mappings: vec![ScenarioModelMapping {
            scenario_id: "TEST-001".into(),
            expected_scenario_result: VerificationStatus::Pass,
            model_check_id: "ADMITS".into(),
            trace_pattern: strings(&["Fetch(A)", "Timeout"]),
        }],
        source: format!("{SPEC}/models/scenario-validation.json"),
    }
}

fn dependency(id: &str, result: VerificationStatus, trace: &[&str]) -> DependencyEvidence {
    DependencyEvidence {
        id: EvidenceId(id.into()),
        result,
        validity: EvidenceValidity::Current,
        trace: strings(trace),
        fingerprint: format!("fp-{id}"),
    }
}

#[test]
fn scenario_model_cross_validation_passes_on_agreeing_current_evidence() {
    let v = validation();
    let evidence = quint::run_validation(
        &v,
        vec![Some(dependency("S1", VerificationStatus::Pass, &["Fetch(A)", "Retry", "Timeout"]))],
        vec![Some(dependency("M1", VerificationStatus::Pass, &[]))],
        b"definition",
        1,
    );
    assert_eq!(evidence.result_at_execution, VerificationStatus::Pass);
    assert_eq!(evidence.mappings[0].status, VerificationStatus::Pass);
    assert!(evidence.does_not_prove.contains(&"refinement".into()));
    assert_eq!(
        evidence.dependency_fingerprints,
        vec![("model:ADMITS".to_string(), "fp-M1".to_string()), ("scenario:TEST-001".to_string(), "fp-S1".to_string())]
    );
    let current = quint::dependency_fingerprints(
        &v.mappings,
        &vec![Some(dependency("S1", VerificationStatus::Pass, &[]))],
        &vec![Some(dependency("M2", VerificationStatus::Pass, &[]))],
    );
    assert_eq!(quint::assess_validation(&evidence, b"definition", &current), EvidenceValidity::Stale);
}

#[test]
fn scenario_model_mismatch_is_validation_fail_not_model_property_pass() {
    let evidence = quint::run_validation(
        &validation(),
        vec![Some(dependency("S1", VerificationStatus::Pass, &["Fetch(A)", "Timeout"]))],
        vec![Some(dependency("M1", VerificationStatus::Fail, &[]))],
        b"definition",
        1,
    );
    assert_eq!(evidence.result_at_execution, VerificationStatus::Fail);
    assert_eq!(evidence.mappings[0].model_result, Some(VerificationStatus::Fail));
}

#[test]
fn scenario_model_validation_rejects_a_missing_observed_trace_event() {
    let evidence = quint::run_validation(
        &validation(),
        vec![Some(dependency("S1", VerificationStatus::Pass, &["Fetch(A)"]))],
        vec![Some(dependency("M1", VerificationStatus::Pass, &[]))],
        b"definition",
        1,
    );
    assert_eq!(evidence.result_at_execution, VerificationStatus::Fail);
    assert!(!evidence.mappings[0].scenario_trace_matches);
    assert_eq!(evidence.mappings[0].missing_trace_events, vec!["Timeout"]);
    assert_eq!(
        evidence.diagnostics,
        vec![
            "TEST-001 -> ADMITS is Fail (scenario Some(Pass)/Some(Current), model Some(Pass)/Some(Current), trace_match=false, missing_trace_events=[\"Timeout\"])"
                .to_string()
        ]
    );
}

#[test]
fn missing_dependency_evidence_is_unverified() {
    let evidence = quint::run_validation(&validation(), vec![None], vec![None], b"definition", 1);
    assert_eq!(evidence.result_at_execution, VerificationStatus::Unverified);
    assert_eq!(
        evidence.dependency_fingerprints,
        vec![("model:ADMITS".to_string(), "missing".to_string()), ("scenario:TEST-001".to_string(), "missing".to_string())]
    );
}

#[test]
fn mapping_status_orders_error_stale_missing_and_failure() {
    let cur = Some(EvidenceValidity::Current);
    let stale = Some(EvidenceValidity::Stale);
    let (pass, fail, error) = (VerificationStatus::Pass, VerificationStatus::Fail, VerificationStatus::Error);
    assert_eq!(quint::mapping_status(pass, Some(error), stale, Some(pass), cur, true), error);
    assert_eq!(quint::mapping_status(pass, Some(pass), stale, Some(pass), cur, true), VerificationStatus::Stale);
    assert_eq!(quint::mapping_status(pass, None, None, Some(pass), cur, true), VerificationStatus::Unverified);
    assert_eq!(quint::mapping_status(fail, Some(pass), cur, Some(pass), cur, true), fail);
    assert_eq!(quint::mapping_status(pass, Some(pass), cur, Some(pass), cur, true), pass);
    let (matched, missing) = quint::trace_subsequence(&strings(&["b", "a", "c"]), &strings(&["a", "b"]));
    assert!(!matched);
    assert_eq!(missing, strings(&["b"]));
}
