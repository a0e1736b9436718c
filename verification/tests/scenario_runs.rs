use adrproof::evidence::VerificationStatus;
use adrproof::policy::sarif_result;
use adrproof::scenario::{judge_run, RunnerOutput};

fn runner(observed: &[(&str, &str)], infrastructure_error: Option<&str>) -> RunnerOutput {
    RunnerOutput {
        postconditions: observed.iter().map(|(k, v)| (k.to_string(), v.to_string())).collect(),
        diagnostics: vec!["runner note".into()],
        trace: Vec::new(),
        infrastructure_error: infrastructure_error.map(String::from),
        tool_versions: Vec::new(),
    }
}

fn expected() -> Vec<(String, String)> {
    vec![("committed".into(), "true".into()), ("rows".into(), "3".into())]
}

#[test]
fn a_run_passes_when_every_postcondition_is_observed() {
    let judgement = judge_run(&expected(), runner(&[("committed", "true"), ("rows", "3"), ("extra", "1")], None));
    assert_eq!(judgement.result, VerificationStatus::Pass);
    assert!(judgement.postconditions.iter().all(|p| p.passed));
    assert_eq!(judgement.diagnostics, vec!["runner note"]);
}

#[test]
fn a_wrong_or_missing_postcondition_fails_with_a_diagnostic() {
    let judgement = judge_run(&expected(), runner(&[("committed", "false")], None));
    assert_eq!(judgement.result, VerificationStatus::Fail);
    assert_eq!(judgement.postconditions[0].observed.as_deref(), Some("false"));
    assert_eq!(judgement.postconditions[1].observed, None);
    assert_eq!(
        judgement.diagnostics,
        vec![
            "runner note",
            "postcondition `committed` expected true but observed false",
            "postcondition `rows` expected 3 but observed <missing>",
        ]
    );
}

#[test]
fn an_infrastructure_error_makes_the_run_an_error() {
    let judgement = judge_run(&expected(), runner(&[("committed", "true"), ("rows", "3")], Some("scenario runner timed out after 10 ms")));
    assert_eq!(judgement.result, VerificationStatus::Error);
    assert_eq!(judgement.diagnostics, vec!["runner note", "scenario runner timed out after 10 ms"]);
    let empty = judge_run(&Vec::new(), runner(&[], None));
    assert_eq!(empty.result, VerificationStatus::Pass);
}

#[test]
fn sarif_results_follow_the_finding_status() {
    let failing = sarif_result(Some("SCENARIO:S1"), Some("scenario"), Some("spec:scenarios/s1.json"), Some("FAIL"), false);
    assert_eq!(failing.rule_id, "SCENARIO:S1");
    assert_eq!(failing.level, "error");
    assert_eq!(failing.message, "scenario SCENARIO:S1: FAIL");
    assert_eq!(failing.uri, "spec:scenarios/s1.json");
    assert!(!failing.suppressed);
    let defaults = sarif_result(None, None, None, None, true);
    assert_eq!(defaults.rule_id, "ADRPROOF");
    assert_eq!(defaults.level, "warning");
    assert_eq!(defaults.message, "verification ADRPROOF: ATTENTION");
    assert_eq!(defaults.uri, "specification");
    assert!(defaults.suppressed);
    assert_eq!(sarif_result(None, None, None, Some("ERROR"), false).level, "error");
}
