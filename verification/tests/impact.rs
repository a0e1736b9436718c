use adrproof::project::{ArtifactId, EvidenceId, GraphEdge, GraphNode, LinkKind, ProofObligationId};
use adrproof::query::heterogeneous_impact_from;
use adrproof::roots::VerificationRoots;

fn obligation(id: &str) -> GraphNode {
    GraphNode::ProofObligation(ProofObligationId(id.into()))
}

fn edge(from: GraphNode, kind: LinkKind, to: GraphNode) -> GraphEdge {
    GraphEdge { from, kind, to }
}

#[test]
fn heterogeneous_impact_reaches_parents_through_reversed_requirements() {
    let roots = VerificationRoots::explicit("/work/app", "/work/spec", "/work/state", "/");
    let model = GraphNode::Artifact(ArtifactId("spec:models/pipeline.qnt".into()));
    let edges = vec![
        edge(model.clone(), LinkKind::VerifiedBy, obligation("SCENARIO:S1")),
        edge(obligation("PARENT:P1"), LinkKind::Requires, obligation("SCENARIO:S1")),
        edge(obligation("SCENARIO:S1"), LinkKind::VerifiedBy, GraphNode::Evidence(EvidenceId("EV:1".into()))),
        edge(GraphNode::Artifact(ArtifactId("spec:other.md".into())), LinkKind::VerifiedBy, obligation("PARENT:P2")),
    ];
    let parents = vec!["PARENT:P1".to_string(), "PARENT:P2".to_string()];
    let report = heterogeneous_impact_from(&roots, edges, &parents, Vec::new(), "spec:models/pipeline.qnt");
    assert_eq!(report.subject, "artifact:spec:models/pipeline.qnt");
    assert_eq!(report.affected_obligations, vec!["PARENT:P1", "SCENARIO:S1"]);
    assert_eq!(report.affected_evidence, vec!["EV:1"]);
    assert_eq!(report.affected_parents, vec!["PARENT:P1"]);
    assert_eq!(report.paths.len(), 3);
    assert!(report.paths.iter().any(|p| p.len() == 2 && p[1].contains("--RequiredBy--> obligation:PARENT:P1")));
    assert!(report.relational_evidence.is_empty());
}

#[test]
fn heterogeneous_impact_of_an_unconnected_file_is_empty() {
    let roots = VerificationRoots::explicit("/work/app", "/work/spec", "/work/state", "/");
    let edges = vec![edge(obligation("PARENT:P1"), LinkKind::Requires, obligation("SCENARIO:S1"))];
    let report = heterogeneous_impact_from(&roots, edges, &Vec::new(), Vec::new(), "/work/app/src/lib.rs");
    assert_eq!(report.subject, "artifact:project:src/lib.rs");
    assert!(report.paths.is_empty());
    assert!(report.affected_obligations.is_empty());
    assert!(report.affected_evidence.is_empty());
    assert!(report.affected_parents.is_empty());
}
