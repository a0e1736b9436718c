use adrproof::adr::Error;
use adrproof::external::{check_body, check_header, declared_input, judge_finished_run, ExternalProviderIdentity, KeyedCoverage, ResponseHeader};
use adrproof::project::{Artifact, ArtifactId, CoverageScope, FactCoverage, FactId, ProjectFact, Provenance, ProvenanceKind, WorldAssumption};
use adrproof::roots::VerificationRoots;

fn code(r: Result<impl std::fmt::Debug, Error>) -> String {
    match r {
        Err(Error::ExternalProviderFailure { code, .. }) => code,
        other => panic!("expected a provider failure, got {other:?}"),
    }
}

fn text(r: Result<impl std::fmt::Debug, Error>) -> String {
    match r {
        Err(Error::ExternalProviderFailure { message, .. }) => message,
        other => panic!("expected a provider failure, got {other:?}"),
    }
}

#[test]
fn provider_failures_read_as_the_protocol_words_them() {
    assert_eq!(text(judge_finished_run("p", 20, true, false, false, b"", false, "x")), "external provider `p` timed out after 20 ms");
    assert!(text(judge_finished_run("p", 20, false, true, false, b"", true, "x")).contains("output limit"));
    assert_eq!(
        text(judge_finished_run("p", 20, false, false, false, b" bad \n", false, "exit status: 3")),
        "external provider `p` exited with exit status: 3: bad"
    );
    assert_eq!(
        text(check_header("db", "1", &header("v0", "db", "1", &[]))),
        "external provider `db` returned unsupported schema `v0`"
    );
    let roots = VerificationRoots::explicit("/p", "/s", "/st", "/");
    assert_eq!(text(declared_input(&roots, "other:x")), "external provider input `other:x` must use project: or spec: namespace");
    assert_eq!(text(declared_input(&roots, "project:../x")), "external provider input `project:../x` is not a normalized logical path");
    let none: Vec<KeyedCoverage> = Vec::new();
    let no_diags: Vec<String> = Vec::new();
    let llm = fact("db:1", USERS, ProvenanceKind::LlmDerived);
    assert!(text(check_body("db", "1", &inputs(), &vec![artifact(USERS)], &vec![llm], &none, &no_diags)).contains("may emit only"));
    let undeclared = artifact("project:other.sql");
    assert!(text(check_body("db", "1", &inputs(), &vec![undeclared], &vec![], &none, &no_diags)).contains("is not a declared input"));
    assert_eq!(
        text(check_body("db", "1", &inputs(), &vec![artifact(USERS), artifact(USERS)], &vec![], &none, &no_diags)),
        format!("external provider `db` returned duplicate artifact id `{USERS}`")
    );
}

#[test]
fn finished_runs_fail_closed_in_order() {
    assert_eq!(code(judge_finished_run("p", 20, true, true, false, b"", false, "exit status: 1")), "ADRP-EXTP-201");
    assert_eq!(code(judge_finished_run("p", 20, false, false, true, b"", true, "exit status: 0")), "ADRP-EXTP-202");
    assert_eq!(code(judge_finished_run("p", 20, false, false, false, &[0xff, 0xfe], true, "exit status: 0")), "ADRP-EXTP-300");
    assert_eq!(code(judge_finished_run("p", 20, false, false, false, b"boom", false, "exit status: 3")), "ADRP-EXTP-200");
    assert_eq!(judge_finished_run("p", 20, false, false, false, b"  \n", true, "exit status: 0").unwrap(), None);
    assert_eq!(
        judge_finished_run("p", 20, false, false, false, b"  warning: slow\n", true, "exit status: 0").unwrap(),
        Some("provider stderr: warning: slow".to_string())
    );
}

fn header(schema: &str, id: &str, version: &str, inputs: &[&str]) -> ResponseHeader {
    ResponseHeader {
        schema_version: schema.into(),
        provider: ExternalProviderIdentity { id: id.into(), version: version.into() },
        inputs: inputs.iter().map(|s| s.to_string()).collect(),
    }
}

const SCHEMA: &str = "adrproof-external-provider-response-v1";

#[test]
fn schema_and_identity_mismatches_are_rejected_and_inputs_are_sorted() {
    assert_eq!(code(check_header("db", "1", &header("other", "db", "1", &[]))), "ADRP-EXTP-301");
    assert_eq!(code(check_header("db", "1", &header(SCHEMA, "web", "1", &[]))), "ADRP-EXTP-301");
    assert_eq!(code(check_header("db", "1", &header(SCHEMA, "db", "2", &[]))), "ADRP-EXTP-301");
    assert_eq!(code(check_header("db", "1", &header(SCHEMA, "db", "1", &["spec:b", "project:a", "spec:b"]))), "ADRP-EXTP-400");
    assert_eq!(
        check_header("db", "1", &header(SCHEMA, "db", "1", &["spec:b", "project:a"])).unwrap(),
        vec!["project:a".to_string(), "spec:b".to_string()]
    );
}

#[test]
fn declared_inputs_must_be_normalized_and_namespaced() {
    let roots = VerificationRoots::explicit("/p", "/s", "/st", "/");
    assert_eq!(declared_input(&roots, "project:db/schema.sql").unwrap(), ("/p".to_string(), "db/schema.sql".to_string()));
    assert_eq!(declared_input(&roots, "spec:adr/a.md").unwrap(), ("/s".to_string(), "adr/a.md".to_string()));
    for bad in ["other:x", "project:", "project:../x", "project:a/../../x", "project:/etc/passwd", "spec:./a", "spec:a\\b", "spec:."] {
        assert_eq!(code(declared_input(&roots, bad)), "ADRP-EXTP-400", "{bad}");
    }
}

fn provenance(kind: ProvenanceKind, source: &str, extractor: Option<&str>) -> Provenance {
    Provenance { kind, source: source.into(), span: None, extractor: extractor.map(|s| s.to_string()) }
}

const USERS: &str = "project:db/users.sql";
const ACCOUNTS: &str = "project:db/accounts.sql";

fn inputs() -> Vec<String> {
    vec![USERS.to_string(), ACCOUNTS.to_string()]
}

fn artifact(id: &str) -> Artifact {
    Artifact { id: ArtifactId(id.into()), kind: "sql_file".into(), provenance: provenance(ProvenanceKind::Authoritative, id, None) }
}

fn fact(id: &str, source: &str, kind: ProvenanceKind) -> ProjectFact {
    ProjectFact {
        id: FactId(id.into()),
        relation: "has_column".into(),
        arguments: vec!["users".into(), "email".into()],
        value: true,
        attributes: Vec::new(),
        provenance: provenance(kind, source, Some("parser")),
    }
}

fn coverage(provider: &str, statement: &str) -> KeyedCoverage {
    KeyedCoverage {
        key: format!("{provider}:{statement}"),
        coverage: FactCoverage {
            relation: "has_column".into(),
            provider: provider.into(),
            world: WorldAssumption::Closed,
            scope: CoverageScope::Global,
            qualifiers: Vec::new(),
            statement: statement.into(),
            diagnostics: Vec::new(),
        },
    }
}

#[test]
fn provider_bodies_are_checked_and_stamped() {
    let arts = vec![artifact(USERS), artifact(ACCOUNTS)];
    let facts = vec![fact("db:2", USERS, ProvenanceKind::DeterministicallyExtracted), fact("db:1", ACCOUNTS, ProvenanceKind::Authoritative)];
    let covs = vec![coverage("db", "all columns")];
    let diags = vec!["b".to_string(), "a".to_string(), "b".to_string()];
    let body = check_body("db", "1.0", &inputs(), &arts, &facts, &covs, &diags).unwrap();
    let ids: Vec<&str> = body.artifacts.iter().map(|a| a.id.0.as_str()).collect();
    assert_eq!(ids, [ACCOUNTS, USERS]);
    assert_eq!(body.artifacts[0].provenance.extractor.as_deref(), Some("external:db@1.0"));
    let ids: Vec<&str> = body.facts.iter().map(|f| f.id.0.as_str()).collect();
    assert_eq!(ids, ["db:1", "db:2"]);
    assert_eq!(body.facts[0].provenance.extractor.as_deref(), Some("external:db@1.0; parser"));
    assert_eq!(body.diagnostics, vec!["a".to_string(), "b".to_string()]);
    assert_eq!(body.coverage.len(), 1);
}

#[test]
fn provider_bodies_that_claim_too_much_are_rejected() {
    let arts = vec![artifact(USERS)];
    let good = fact("db:1", USERS, ProvenanceKind::Authoritative);
    let none: Vec<KeyedCoverage> = Vec::new();
    let no_diags: Vec<String> = Vec::new();
    assert!(check_body("db", "1", &inputs(), &arts, &vec![good.clone()], &none, &no_diags).is_ok());
    // duplicate ids
    assert_eq!(code(check_body("db", "1", &inputs(), &vec![artifact(USERS), artifact(USERS)], &vec![], &none, &no_diags)), "ADRP-EXTP-600");
    assert_eq!(code(check_body("db", "1", &inputs(), &arts, &vec![good.clone(), good.clone()], &none, &no_diags)), "ADRP-EXTP-600");
    // LLM-derived provenance
    let llm = fact("db:1", USERS, ProvenanceKind::LlmDerived);
    assert_eq!(code(check_body("db", "1", &inputs(), &arts, &vec![llm], &none, &no_diags)), "ADRP-EXTP-500");
    // undeclared provenance source
    let undeclared = artifact("project:other.sql");
    assert_eq!(code(check_body("db", "1", &inputs(), &vec![undeclared], &vec![], &none, &no_diags)), "ADRP-EXTP-500");
    // fact id outside the provider's namespace
    let foreign = fact("web:1", USERS, ProvenanceKind::Authoritative);
    assert_eq!(code(check_body("db", "1", &inputs(), &arts, &vec![foreign], &none, &no_diags)), "ADRP-EXTP-500");
    // negative facts and bad relation names
    let mut negative = good.clone();
    negative.value = false;
    assert_eq!(code(check_body("db", "1", &inputs(), &arts, &vec![negative], &none, &no_diags)), "ADRP-EXTP-500");
    let mut bad_relation = good.clone();
    bad_relation.relation = "has-column".into();
    assert_eq!(code(check_body("db", "1", &inputs(), &arts, &vec![bad_relation], &none, &no_diags)), "ADRP-EXTP-500");
    // coverage owned by another provider, or without a statement
    assert_eq!(code(check_body("db", "1", &inputs(), &arts, &vec![good.clone()], &vec![coverage("web", "x")], &no_diags)), "ADRP-EXTP-500");
    assert_eq!(code(check_body("db", "1", &inputs(), &arts, &vec![good.clone()], &vec![coverage("db", "  ")], &no_diags)), "ADRP-EXTP-500");
    // the source of a fact must be an artifact the provider returned
    let orphan = fact("db:1", ACCOUNTS, ProvenanceKind::Authoritative);
    assert_eq!(code(check_body("db", "1", &inputs(), &arts, &vec![orphan], &none, &no_diags)), "ADRP-EXTP-500");
}
