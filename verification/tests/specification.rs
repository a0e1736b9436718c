use adrproof::adr::{Adr, Decl, Error, Expr};
use adrproof::assembly::{current_evidence_status, load_project_model, load_project_model_with_roots, run_check};
use adrproof::cargo::{CargoDependency, CargoMetadata, CargoPackage};
use adrproof::check::{BackendResult, ConstraintBackend, Verdict};
use adrproof::document::load_adrs;
use adrproof::effective::{effective, EffectiveSpecification};
use adrproof::evidence::VerificationStatus;
use adrproof::lowering::{lower_to_project_model, relational_obligation, RelationalProofObligation};
use adrproof::project::{ProjectModel, RelationalFormula};
use adrproof::roots::VerificationRoots;
use adrproof::smt::{fact_is_solver_supported, obligation_to_smt, to_smt};
use std::collections::{BTreeMap, BTreeSet};

const ROOT: &str = "/work";

fn adr(file: &str, id: &str, status: &str, relations: &str, body: &str) -> (String, String) {
    (
        format!("{ROOT}/{file}"),
        format!("---\nid: {id}\nstatus: {status}\n{relations}---\n\n```adrlogic\n{body}\n```\n"),
    )
}

fn spec(documents: &Vec<(String, String)>) -> Result<EffectiveSpecification, Error> {
    effective(&load_adrs(documents)?, false)
}

fn satisfiable(s: &EffectiveSpecification) -> bool {
    let names = s
        .declarations
        .iter()
        .filter_map(|d| if let Decl::Bool(n) = d { Some(n.clone()) } else { None })
        .collect::<BTreeSet<_>>()
        .into_iter()
        .collect::<Vec<_>>();
    (0..(1usize << names.len())).any(|mask| {
        let env = names
            .iter()
            .enumerate()
            .map(|(i, n)| (n.clone(), mask & (1 << i) != 0))
            .collect();
        s.clauses.iter().all(|c| eval(&c.expression, &env))
    })
}

fn eval(e: &Expr, env: &BTreeMap<String, bool>) -> bool {
    match e {
        Expr::Bool(x) => *x,
        Expr::Name(n) => env[n],
        Expr::Not(x) => !eval(x, env),
        Expr::And(a, b) => eval(a, env) && eval(b, env),
        Expr::Or(a, b) => eval(a, env) || eval(b, env),
        Expr::Implies(a, b) => !eval(a, env) || eval(b, env),
        _ => panic!("test evaluator only supports Bool formulas"),
    }
}

struct FixedBackend(Verdict);

impl ConstraintBackend for FixedBackend {
    fn check(&self, _: &RelationalProofObligation, _: &str) -> Result<BackendResult, Error> {
        Ok(BackendResult {
            verdict: self.0,
            core: vec!["A:C1".into(), "B:C1".into()],
            solver_version: "Z3 4.13.4".into(),
            elapsed_ms: 1,
            timeout_ms: 10_000,
        })
    }
}

struct BrokenBackend;

impl ConstraintBackend for BrokenBackend {
    fn check(&self, _: &RelationalProofObligation, _: &str) -> Result<BackendResult, Error> {
        Err(Error::SolverFailure("verifier crashed".into()))
    }
}

/// A three-package workspace: `domain` depends on `fake_sqlx` directly or through
/// `repository`; the ADR forbids the direct dependency.
struct Workspace {
    documents: Vec<(String, String)>,
    manifests: Vec<(String, String)>,
    direct: bool,
    dependencies: bool,
}

fn path_dependency(name: &str) -> CargoDependency {
    CargoDependency {
        name: name.into(),
        kind: None,
        optional: false,
        target: None,
        path: Some(format!("{ROOT}/{name}")),
        rename: None,
        source: None,
    }
}

fn package(name: &str, dependencies: Vec<CargoDependency>) -> CargoPackage {
    CargoPackage {
        id: format!("path+file://{ROOT}/{name}#0.1.0"),
        name: name.into(),
        manifest_path: format!("{ROOT}/{name}/Cargo.toml"),
        dependencies,
    }
}

impl Workspace {
    fn new(direct: bool) -> Self {
        let dependency = if direct { "fake_sqlx={path='../fake_sqlx'}" } else { "repository={path='../repository'}" };
        let manifests = vec![
            (format!("{ROOT}/Cargo.toml"), "[workspace]\nresolver='2'\nmembers=['domain','repository','fake_sqlx']\n".to_string()),
            (
                format!("{ROOT}/domain/Cargo.toml"),
                format!("[package]\nname='domain'\nversion='0.1.0'\nedition='2024'\n[dependencies]\n{dependency}\n"),
            ),
            (
                format!("{ROOT}/repository/Cargo.toml"),
                "[package]\nname='repository'\nversion='0.1.0'\nedition='2024'\n[dependencies]\nfake_sqlx={path='../fake_sqlx'}\n".to_string(),
            ),
            (format!("{ROOT}/fake_sqlx/Cargo.toml"), "[package]\nname='fake_sqlx'\nversion='0.1.0'\nedition='2024'\n".to_string()),
        ];
        let documents = vec![adr(
            "architecture.md",
            "ADR-1",
            "accepted",
            "",
            "entity Package { domain, repository, fake_sqlx }; relation declares_direct_dependency(Package, Package); rule C1 \"no direct db\" { !declares_direct_dependency(domain, fake_sqlx); }",
        )];
        Workspace { documents, manifests, direct, dependencies: true }
    }

    fn metadata(&self) -> CargoMetadata {
        let domain_dependencies = if !self.dependencies {
            Vec::new()
        } else if self.direct {
            vec![path_dependency("fake_sqlx")]
        } else {
            vec![path_dependency("repository")]
        };
        let packages = vec![
            package("domain", domain_dependencies),
            package("fake_sqlx", Vec::new()),
            package("repository", vec![path_dependency("fake_sqlx")]),
        ];
        CargoMetadata {
            workspace_members: packages.iter().map(|p| p.id.clone()).collect(),
            packages,
            workspace_root: ROOT.into(),
        }
    }

    fn cargo(&self) -> Option<(CargoMetadata, Vec<(String, String)>)> {
        Some((self.metadata(), self.manifests.clone()))
    }

    fn contents(&self) -> Vec<(String, Vec<u8>)> {
        self.documents
            .iter()
            .chain(self.manifests.iter())
            .map(|(path, text)| (path.clone(), text.clone().into_bytes()))
            .collect()
    }

    fn edit(&mut self, path: &str, text: &str) {
        for entry in &mut self.manifests {
            if entry.0 == format!("{ROOT}/{path}") {
                entry.1 = text.to_string();
            }
        }
    }

    fn append(&mut self, path: &str, text: &str) {
        for entry in &mut self.manifests {
            if entry.0 == format!("{ROOT}/{path}") {
                entry.1.push_str(text);
            }
        }
    }

    fn model(&self) -> ProjectModel {
        load_project_model(ROOT, "/", &self.documents, self.cargo()).unwrap().0
    }

    fn check(&self, recorded_at_unix_nanos: u128) -> adrproof::assembly::CheckReport {
        run_check(
            ROOT,
            &format!("{ROOT}/.adrproof"),
            "/",
            &self.documents,
            self.cargo(),
            &self.contents(),
            &FixedBackend(Verdict::Sat),
            recorded_at_unix_nanos,
        )
        .unwrap()
    }

    fn status(&self, evidence: Vec<adrproof::evidence::Evidence>, version: &str, timeout_ms: u64) -> VerificationStatus {
        current_evidence_status(
            ROOT,
            "/",
            &format!("{ROOT}/.adrproof/evidence"),
            &self.documents,
            self.cargo(),
            &self.contents(),
            evidence,
            version,
            timeout_ms,
        )
        .unwrap()
    }
}

fn ground_constraint_holds(model: &ProjectModel) -> bool {
    let facts = model
        .facts
        .iter()
        .filter(|fact| fact.value && fact_is_solver_supported(fact))
        .map(|fact| (fact.relation.clone(), fact.arguments.clone()))
        .collect::<BTreeSet<_>>();
    fn formula(value: &RelationalFormula, facts: &BTreeSet<(String, Vec<String>)>) -> bool {
        match value {
            RelationalFormula::Bool(value) => *value,
            RelationalFormula::Relation(name, arguments) => facts.contains(&(name.clone(), arguments.clone())),
            RelationalFormula::Not(value) => !formula(value, facts),
            RelationalFormula::And(a, b) => formula(a, facts) && formula(b, facts),
            RelationalFormula::Or(a, b) => formula(a, facts) || formula(b, facts),
            RelationalFormula::Implies(a, b) => !formula(a, facts) || formula(b, facts),
            other => panic!("ground test evaluator cannot evaluate {other:?}"),
        }
    }
    model.constraints.iter().all(|constraint| formula(&constraint.formula, &facts))
}


#[test]
fn two_compatible_adrs_are_sat() {
    let d = vec![
        adr("a.md", "A", "accepted", "", "bool x; rule C1 \"x\" { x; }"),
        adr("b.md", "B", "accepted", "", "bool x; rule C1 \"also x\" { x; }"),
    ];
    assert!(satisfiable(&spec(&d).unwrap()))
}

#[test]
fn direct_conflict_is_unsat() {
    let d = vec![
        adr("a.md", "A", "accepted", "", "bool x; rule C1 \"x\" { x; }"),
        adr("b.md", "B", "accepted", "", "bool x; rule C1 \"not x\" { !x; }"),
    ];
    assert!(!satisfiable(&spec(&d).unwrap()))
}

#[test]
fn global_three_way_conflict_not_pairwise() {
    let d = vec![
        adr("a.md", "A", "accepted", "", "bool x; rule C1 \"x\" { x; }"),
        adr("b.md", "B", "accepted", "", "bool y; rule C1 \"y\" { y; }"),
        adr("c.md", "C", "accepted", "", "bool x; bool y; rule C1 \"not both\" { !(x && y); }"),
    ];
    let all = load_adrs(&d).unwrap();
    assert!(!satisfiable(&effective(&all, false).unwrap()));
    for omit in 0..3 {
        let pair = all
            .iter()
            .enumerate()
            .filter(|(i, _)| *i != omit)
            .map(|(_, x)| x.clone())
            .collect::<Vec<Adr>>();
        assert!(satisfiable(&effective(&pair, false).unwrap()), "pair {omit} must be SAT")
    }
}

#[test]
fn supersedes_removes_old_constraint() {
    let d = vec![
        adr("old.md", "A", "accepted", "", "bool x; rule C1 \"x\" { x; }"),
        adr("new.md", "B", "accepted", "supersedes: A\n", "bool x; rule C1 \"not x\" { !x; }"),
    ];
    let s = spec(&d).unwrap();
    assert_eq!(s.active_adrs, vec!["B"]);
    assert!(satisfiable(&s))
}

#[test]
fn bad_reference_is_rejected() {
    let d = vec![adr("a.md", "A", "accepted", "supersedes: MISSING\n", "bool x; rule C1 \"x\" { x; }")];
    assert!(matches!(spec(&d), Err(Error::InvalidReference { .. })))
}

#[test]
fn type_error_precedes_solver() {
    let d = vec![adr(
        "a.md",
        "A",
        "accepted",
        "",
        "entity Crate { domain }; relation depends_on(Crate, Crate); rule C1 \"bad type\" { depends_on(domain, missing); }",
    )];
    assert!(matches!(spec(&d), Err(Error::Diagnostic { .. })))
}

#[test]
fn smt_has_named_source_clauses_in_stable_order() {
    let d = vec![
        adr("z.md", "Z", "accepted", "", "bool x; rule C2 \"second\" { x; }"),
        adr("a.md", "A", "accepted", "", "bool x; rule C1 \"first\" { !x; }"),
    ];
    let s = spec(&d).unwrap();
    let a = to_smt(&s, None);
    let b = to_smt(&s, None);
    assert_eq!(a, b);
    assert!(a.find("|A:C1|").unwrap() < a.find("|Z:C2|").unwrap())
}

#[test]
fn core_maps_to_clause_ids_and_spans() {
    let d = vec![
        adr("a.md", "A", "accepted", "", "bool x; rule C1 \"x\" { x; }"),
        adr("b.md", "B", "accepted", "", "bool x; rule C1 \"not x\" { !x; }"),
    ];
    let contents = d.iter().map(|(p, t)| (p.clone(), t.clone().into_bytes())).collect();
    let r = run_check(ROOT, &format!("{ROOT}/out"), "/", &d, None, &contents, &FixedBackend(Verdict::Unsat), 1).unwrap();
    assert_eq!(r.conflicts.len(), 2);
    assert_eq!(r.conflicts[0].adr_id, "A");
    assert!(r.conflicts[0].span.line > 1)
}

#[test]
fn unknown_is_never_pass() {
    let d = vec![adr("a.md", "A", "accepted", "", "bool x; rule C1 \"x\" { x; }")];
    let contents = d.iter().map(|(p, t)| (p.clone(), t.clone().into_bytes())).collect();
    let r = run_check(ROOT, &format!("{ROOT}/out"), "/", &d, None, &contents, &FixedBackend(Verdict::Unknown), 1).unwrap();
    assert_eq!(r.verdict, Verdict::Unknown);
    assert_ne!(r.verdict, Verdict::Sat)
}

#[test]
fn adrlogic_lowers_into_project_intent_ir() {
    let d = vec![adr("a.md", "A", "accepted", "", "bool x; rule C1 \"x\" { x; }")];
    let adrs = load_adrs(&d).unwrap();
    let model = lower_to_project_model(&adrs, &effective(&adrs, false).unwrap());
    assert!(model.decisions.iter().any(|d| d.id.0 == "A"));
    let constraint = model.constraints.iter().find(|c| c.id.0 == "A:C1").unwrap();
    assert!(matches!(constraint.formula, RelationalFormula::Name(_)));
}

#[test]
fn direct_dependency_violates_project_constraint() {
    let model = Workspace::new(true).model();
    assert!(!ground_constraint_holds(&model));
    let smt = obligation_to_smt(&relational_obligation(model));
    assert!(smt.contains("FACT:cargo:declared-direct:domain:fake_sqlx"));
}

#[test]
fn indirect_dependency_does_not_violate_direct_rule() {
    let model = Workspace::new(false).model();
    assert!(ground_constraint_holds(&model));
    assert!(!model
        .facts
        .iter()
        .any(|fact| fact.relation == "declares_direct_dependency" && fact.value && fact.arguments == ["domain", "fake_sqlx"]));
}

#[test]
fn removing_prohibited_dependency_makes_constraint_pass() {
    let mut w = Workspace::new(true);
    assert!(!ground_constraint_holds(&w.model()));
    w.edit("domain/Cargo.toml", "[package]\nname='domain'\nversion='0.1.0'\nedition='2024'\n");
    w.dependencies = false;
    assert!(ground_constraint_holds(&w.model()));
}

#[test]
fn evidence_fingerprints_become_stale_and_reverification_refreshes() {
    let mut w = Workspace::new(false);
    let report = w.check(1);
    assert_eq!(report.evidence_status, VerificationStatus::Pass);
    assert_eq!(w.status(vec![report.evidence], "Z3 4.13.4", 10_000), VerificationStatus::Pass);
    w.append("domain/Cargo.toml", "\n# relevant input changed\n");
    let recorded_before_change = Workspace::new(false).check(1).evidence;
    assert_eq!(w.status(vec![recorded_before_change], "Z3 4.13.4", 10_000), VerificationStatus::Stale);
    let refreshed = w.check(2);
    assert_eq!(refreshed.evidence_status, VerificationStatus::Pass);
    let recorded_before_change = Workspace::new(false).check(1).evidence;
    assert_eq!(
        w.status(vec![recorded_before_change, refreshed.evidence], "Z3 4.13.4", 10_000),
        VerificationStatus::Pass
    );
}

#[test]
fn missing_evidence_and_errors_are_not_pass() {
    let w = Workspace::new(false);
    assert_eq!(w.status(Vec::new(), "Z3 4.13.4", 10_000), VerificationStatus::Unverified);
    assert!(!VerificationStatus::Unverified.is_ci_pass());
    assert!(!VerificationStatus::Unknown.is_ci_pass());
    assert!(!VerificationStatus::Error.is_ci_pass());
    assert!(!VerificationStatus::Stale.is_ci_pass());
}

#[test]
fn evidence_records_every_relevant_manifest_fingerprint() {
    let w = Workspace::new(false);
    let evidence = w.check(1).evidence;
    assert!(evidence.inputs.iter().any(|item| item.source.ends_with("domain/Cargo.toml")));
    assert!(evidence.inputs.iter().all(|item| item.sha256.len() == 64));
}

#[test]
fn evidence_storage_uses_portable_filenames_without_changing_logical_ids() {
    let w = Workspace::new(false);
    let evidence = w.check(1).evidence;
    let seed = format!("{:?}", evidence);
    let id = adrproof::evidence::evidence_id(seed.as_bytes());
    assert!(id.0.starts_with("EVIDENCE:"));
    assert_eq!(id.0.len(), "EVIDENCE:".len() + 24);
    let name = adrproof::evidence::storage_file_name(&id);
    assert!(name.ends_with(".json"));
    assert!(!name.chars().any(|c| c.is_control() || "<>:\"/\\|?*".contains(c)), "non-portable filename: {name}");
}

#[test]
fn backend_execution_failure_is_not_pass() {
    let w = Workspace::new(false);
    assert!(matches!(
        run_check(ROOT, &format!("{ROOT}/.adrproof"), "/", &w.documents, w.cargo(), &w.contents(), &BrokenBackend, 1),
        Err(Error::SolverFailure(_))
    ));
}

#[test]
fn absent_provider_coverage_cannot_produce_pass() {
    let d = vec![adr(
        "a.md",
        "A",
        "accepted",
        "",
        "entity Package { domain, sqlx }; relation declares_direct_dependency(Package, Package); rule C1 \"no sqlx\" { !declares_direct_dependency(domain, sqlx); }",
    )];
    let contents = d.iter().map(|(p, t)| (p.clone(), t.clone().into_bytes())).collect();
    let report = run_check(ROOT, &format!("{ROOT}/out"), "/", &d, None, &contents, &FixedBackend(Verdict::Sat), 1).unwrap();
    assert_eq!(report.verdict, Verdict::Unverified);
    assert_eq!(report.evidence_status, VerificationStatus::Unverified);
}

#[test]
fn backend_version_and_configuration_changes_stale_evidence() {
    let w = Workspace::new(false);
    let evidence = w.check(1).evidence;
    assert_eq!(w.status(vec![evidence], "4.14.0", 10_000), VerificationStatus::Stale);
    let evidence = w.check(1).evidence;
    assert_eq!(w.status(vec![evidence], "4.13.4", 20_000), VerificationStatus::Stale);
}

#[test]
fn status_exposes_intent_without_machine_constraint() {
    let mut w = Workspace::new(false);
    w.documents.push(adr("unverified.md", "ADR-2", "accepted", "", ""));
    let report = adrproof::query::status(
        ROOT,
        &format!("{ROOT}/.adrproof"),
        "/",
        &w.documents,
        w.cargo(),
        &w.contents(),
        Vec::new(),
        "4.13.4",
        10_000,
    )
    .unwrap();
    assert_eq!(report.unverified_intent, vec!["ADR-2"]);
}

#[test]
fn irrelevant_manifest_change_does_not_stale_global_evidence() {
    let mut w = Workspace::new(false);
    let evidence = w.check(1).evidence;
    w.append("fake_sqlx/Cargo.toml", "\n# no fact relevant to the constraint changed\n");
    assert_eq!(w.status(vec![evidence], "4.13.4", 10_000), VerificationStatus::Pass);
}

#[test]
fn adrlogic_accepts_real_cargo_names_with_hyphens() {
    let d = vec![adr(
        "cargo-name.md",
        "BIZ-ARCH-TEST",
        "accepted",
        "",
        "entity Package { storefront-domain, search-sdk }; relation declares_direct_dependency(Package, Package); rule C1 \"Cargo names\" { !declares_direct_dependency(storefront-domain, search-sdk); }",
    )];
    assert!(spec(&d).is_ok());
}

#[test]
fn closed_world_absence_uses_source_package_manifest_provenance() {
    let w = Workspace::new(false);
    let roots = VerificationRoots::explicit(ROOT, ROOT, &format!("{ROOT}/state"), "/");
    let (model, _) = load_project_model_with_roots(&roots, &w.documents, w.cargo()).unwrap();
    let absence = model.facts.iter().find(|f| f.id.0 == "cargo:absence:domain:fake_sqlx").unwrap();
    assert_eq!(absence.provenance.source, "project:domain/Cargo.toml");
}

#[test]
fn stale_correspondence_child_blocks_parent_pass() {
    let parent = adrproof::scenario::ParentObligation {
        id: "PARENT".into(),
        claim: "implementation and model correspond".into(),
        authority: "all required evidence".into(),
        required_children: Vec::new(),
        source: String::new(),
    };
    let assessment = adrproof::scenario::aggregate(
        &parent,
        vec![adrproof::scenario::ChildStatus {
            obligation_id: "CORRESPONDENCE:PIPELINE-001".into(),
            status: VerificationStatus::Pass,
            validity: Some(adrproof::evidence::EvidenceValidity::Stale),
            evidence_id: None,
        }],
    );
    assert_eq!(assessment.status, VerificationStatus::Stale);
}
