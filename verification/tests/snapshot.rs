use adrproof::adr::Error;
use adrproof::document::load_adrs;
use adrproof::effective::effective;
use adrproof::evidence::{fingerprint_bytes, InputFingerprint};
use adrproof::loading::namespace_model_artifacts;
use adrproof::lowering::lower_to_project_model;
use adrproof::project::ProjectModel;
use adrproof::roots::VerificationRoots;
use adrproof::snapshot::{capture_snapshot, check_snapshot_pin, validate_snapshot, FactSnapshot, TreeEntry};

fn message(r: Result<impl std::fmt::Debug, Error>) -> String {
    match r {
        Err(Error::Diagnostic { path, message, .. }) => {
            assert_eq!(path, "<fact-snapshot>");
            message
        },
        other => panic!("expected a snapshot diagnostic, got {other:?}"),
    }
}

fn sha(bytes: &[u8]) -> String {
    fingerprint_bytes("x", bytes).sha256
}

fn documents() -> Vec<(String, String)> {
    vec![("a.md".to_string(), "---\nid: A\nstatus: accepted\n---\n\n```adrlogic\nbool x;\nrule C1 \"x holds\" { x; }\n```\n".to_string())]
}

fn spec_model() -> ProjectModel {
    let adrs = load_adrs(&documents()).unwrap();
    let spec = effective(&adrs, false).unwrap();
    let mut model = lower_to_project_model(&adrs, &spec);
    namespace_model_artifacts(&mut model, "spec", "/spec");
    model
}

fn entry(source: &str, kind: &str, text: &str) -> TreeEntry {
    TreeEntry { source: source.into(), kind: kind.into(), sha256: sha(text.as_bytes()), permissions: 0o644 }
}

fn tree() -> Vec<TreeEntry> {
    vec![entry("project:providers.json", "file", "{}"), entry("spec:a.md", "file", &documents()[0].1)]
}

fn snapshot() -> FactSnapshot {
    FactSnapshot {
        schema_version: "adrproof-fact-snapshot-v1alpha1".into(),
        producer_context_sha256: sha(b"context"),
        tree: tree(),
        provider_policy: tree(),
        semantic_inputs: vec![InputFingerprint { source: "spec:a.md".into(), sha256: sha(documents()[0].1.as_bytes()) }],
        model: spec_model(),
    }
}

fn run(s: &FactSnapshot, current: &Vec<TreeEntry>) -> Result<adrproof::snapshot::Receipt, Error> {
    let bytes = b"snapshot bytes";
    validate_snapshot(&sha(bytes), bytes, s, true, current, &vec!["project:providers.json".to_string()], &documents(), "/spec")
}

#[test]
fn snapshot_pins_are_checked_against_the_bytes() {
    assert_eq!(message(check_snapshot_pin("abc", b"x")), "explicit snapshot SHA-256 required");
    assert_eq!(message(check_snapshot_pin(&sha(b"y"), b"x")), "SNAPSHOT_PIN_MISMATCH");
    assert!(check_snapshot_pin(&sha(b"x"), b"x").is_ok());
}

#[test]
fn a_current_snapshot_is_accepted_with_its_receipt() {
    let receipt = run(&snapshot(), &tree()).unwrap();
    assert_eq!(receipt.snapshot_sha256, sha(b"snapshot bytes"));
    assert_eq!(receipt.producer_context_sha256, sha(b"context"));
    assert_eq!(receipt.authority, "externally_pinned_snapshot_and_declared_producer_context");
}

#[test]
fn stale_or_inconsistent_snapshots_are_refused() {
    let mut bad = snapshot();
    bad.schema_version = "other".into();
    assert_eq!(message(run(&bad, &tree())), "unsupported snapshot schema or fields");
    let mut changed = tree();
    changed[0].permissions = 0o755;
    assert_eq!(message(run(&snapshot(), &changed)), "SNAPSHOT_STALE: source tree contents, paths or permissions differ");
    let mut empty = snapshot();
    empty.semantic_inputs.clear();
    assert_eq!(message(run(&empty, &tree())), "empty semantic input set");
    let mut absent = snapshot();
    absent.semantic_inputs[0].source = "spec:b.md".into();
    assert_eq!(message(run(&absent, &tree())), "semantic input escapes or is absent from source tree");
    let mut wrong = snapshot();
    wrong.semantic_inputs[0].sha256 = sha(b"other");
    assert_eq!(message(run(&wrong, &tree())), "semantic input fingerprint mismatch");
    let mut policy = snapshot();
    policy.provider_policy.pop();
    assert_eq!(message(run(&policy, &tree())), "SNAPSHOT_PROVIDER_POLICY_MISMATCH");
    let mut spec = snapshot();
    spec.model = ProjectModel::default();
    assert_eq!(message(run(&spec, &tree())), "SNAPSHOT_SPEC_MISMATCH: captured obligations differ from current specification");
}

#[test]
fn a_capture_records_the_tree_the_policy_and_the_inputs() {
    let roots = VerificationRoots::explicit("/p", "/s", "/st", "/");
    let docs = documents();
    let contents: Vec<(String, Vec<u8>)> = docs.iter().map(|(p, t)| (p.clone(), t.clone().into_bytes())).collect();
    let inputs = vec!["project:providers.json".to_string()];
    let bad = capture_snapshot("nope", &roots, &docs, None, &contents, tree(), &tree(), &inputs);
    assert_eq!(message(bad), "explicit producer context SHA-256 required");
    let outside = capture_snapshot(&sha(b"context"), &roots, &docs, None, &contents, tree(), &tree(), &vec!["project:other".to_string()]);
    assert_eq!(message(outside), "provider configuration/executable must be inside the source export");
    let mut drifted = tree();
    drifted[0].sha256 = sha(b"changed");
    let drift = capture_snapshot(&sha(b"context"), &roots, &docs, None, &contents, tree(), &drifted, &inputs);
    assert_eq!(message(drift), "CAPTURE_INPUT_DRIFT: extraction changed its source export");
    let snap = capture_snapshot(&sha(b"context"), &roots, &docs, None, &contents, tree(), &tree(), &inputs).unwrap();
    assert_eq!(snap.schema_version, "adrproof-fact-snapshot-v1alpha1");
    assert_eq!(snap.tree.len(), 2);
    assert_eq!(snap.tree[1].source, "spec:a.md");
    assert_eq!(snap.provider_policy.len(), 2);
    assert_eq!(snap.semantic_inputs.len(), 1);
    assert_eq!(snap.semantic_inputs[0].source, "spec:a.md");
}
