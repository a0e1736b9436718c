//! Questions about the proof graph: what a change reaches, where an element comes
//! from, and how current the evidence is.
use vstd::prelude::*;
use crate::adr::{Adr, Error, strs};
use crate::assembly::{assembled, current_fingerprints, fingerprint_semantic_files, input_pairs, inputs_of, fingerprinted, smt_text_of, smt_fingerprint, solver_configuration};
use crate::cargo::CargoMetadata;
use crate::evidence::{Evidence, EvidenceValidity, InputFingerprint, VerificationStatus, validity_of};
use crate::keyed::{Keyed, has_key, strictly_sorted};
use crate::lowering::{RelationalProofObligation, is_obligation_of};
use crate::project::{GraphEdge, GraphNode, LinkKind, ProjectModel, edge_json};
use crate::roots::{RootsView, SemanticInput, VerificationRoots};
use crate::text::{cat, cat3, own, str_eq};
use crate::keyed::set_has;
use crate::graph::{lex_sorted, path_views, reaches, reported};

verus! {

/// A recorded result as a query reports it.
#[derive(Debug)]
pub struct EvidenceView {
    pub id: String,
    pub result_at_execution: VerificationStatus,
    pub current_validity: EvidenceValidity,
    pub backend: String,
    pub backend_version: String,
}

/// What an impact or explain query found.
#[derive(Debug)]
pub struct QueryReport {
    pub roots: RootsView,
    pub subject: String,
    pub provenance: Vec<String>,
    pub paths: Vec<Vec<String>>,
    pub evidence: Vec<EvidenceView>,
}

/// The verification status of the project.
#[derive(Debug)]
pub struct StatusReport {
    pub roots: RootsView,
    pub current: Vec<(String, usize)>,
    pub latest_evidence: Vec<EvidenceView>,
    pub unverified_constraints: Vec<String>,
    pub unverified_intent: Vec<String>,
}

/// `v` shows evidence `e` with validity `validity`.
pub open spec fn view_of(e: Evidence, validity: EvidenceValidity, v: EvidenceView) -> bool {
    &&& v.id@ == e.id.0@
    &&& v.result_at_execution == e.result_at_execution
    &&& v.current_validity == validity
    &&& v.backend@ == e.backend@
    &&& v.backend_version@ == e.backend_version@
}

/// The edge linking the obligation a piece of evidence is for to the evidence.
pub open spec fn evidence_edge(e: Evidence) -> GraphEdge {
    GraphEdge {
        from: GraphNode::ProofObligation(e.obligation),
        kind: LinkKind::EvidenceFor,
        to: GraphNode::Evidence(e.id),
    }
}

pub open spec fn evidence_edge_key(e: Evidence) -> Seq<char> {
    edge_json(evidence_edge(e))
}

/// The model of `ob` with an edge from its obligation to each piece of evidence, and
/// the evidence assessed against the current fingerprints.
pub open spec fn in_context(
    ob: RelationalProofObligation,
    current: Seq<InputFingerprint>,
    history: Seq<Evidence>,
    backend_version: Seq<char>,
    timeout_ms: u64,
    out: ProjectModel,
    views: Seq<EvidenceView>,
) -> bool {
    &&& views.len() == history.len()
    &&& forall|i: int| 0 <= i < history.len() ==> view_of(history[i], validity_of(history[i], current, backend_version, solver_configuration(timeout_ms)), #[trigger] views[i])
    &&& strictly_sorted(out.edges@)
    &&& forall|k: Seq<char>| #[trigger] has_key(out.edges@, k) <==> (has_key(ob.model.edges@, k) || exists|i: int| 0 <= i < history.len() && k == evidence_edge_key(#[trigger] history[i]))
    &&& out.artifacts == ob.model.artifacts
    &&& out.decisions == ob.model.decisions
    &&& out.constraints == ob.model.constraints
    &&& out.facts == ob.model.facts
    &&& out.declarations == ob.model.declarations
    &&& out.fact_coverage == ob.model.fact_coverage
}

/// `out` and `views` are the query context of `m`: its obligation's model with the
/// evidence linked in, and the evidence assessed.
pub open spec fn context_of(
    m: ProjectModel,
    inputs: Seq<SemanticInput>,
    contents: Seq<(String, Vec<u8>)>,
    history: Seq<Evidence>,
    backend_version: Seq<char>,
    timeout_ms: u64,
    out: ProjectModel,
    views: Seq<EvidenceView>,
) -> bool {
    exists|ob: RelationalProofObligation, current: Seq<InputFingerprint>|
        #[trigger] is_obligation_of(m, ob) && #[trigger] current_fingerprints(ob, inputs, contents, current)
            && in_context(ob, current, history, backend_version, timeout_ms, out, views)
}

fn current_of(ob: &RelationalProofObligation, inputs: &Vec<SemanticInput>, contents: &Vec<(String, Vec<u8>)>) -> (r: Result<Vec<InputFingerprint>, Error>)
    ensures
        r is Ok <==> crate::assembly::inputs_available(*ob, inputs@, contents@),
        r matches Ok(fps) ==> current_fingerprints(*ob, inputs@, contents@, fps@),
{
    let rel = crate::loading::relevant_semantic_inputs(&ob.model, inputs);
    let fr = fingerprint_semantic_files(&rel, contents);
    proof {
        crate::readback::lemma_available_iff(*ob, inputs@, contents@, rel@, fr is Ok);
    }
    let mut fps = match fr {
        Ok(f) => f,
        Err(e) => return Err(e),
    };
    let ghost fps0 = fps@;
    let text = crate::smt::obligation_to_smt(ob);
    let f = crate::evidence::fingerprint_bytes("generated:effective.smt2", text.as_str().as_bytes());
    fps.push(f);
    proof {
        assert(smt_text_of(*ob, text@));
        assert(smt_fingerprint(f, text@));
        let u = choose|u: Seq<SemanticInput>| #[trigger] inputs_of(input_pairs(rel@), u) && fingerprinted(u, contents@, fps0);
        assert(current_fingerprints(*ob, inputs@, contents@, fps@));
    }
    Ok(fps)
}

fn link_and_view(model: &mut ProjectModel, history: Vec<Evidence>, current: &Vec<InputFingerprint>, backend_version: &str, config: &str, Ghost(timeout_ms): Ghost<u64>) -> (views: Vec<EvidenceView>)
    requires
        config@ == solver_configuration(timeout_ms),
    ensures
        views@.len() == history@.len(),
        forall|i: int| 0 <= i < history@.len() ==> view_of(history@[i], validity_of(history@[i], current@, backend_version@, solver_configuration(timeout_ms)), #[trigger] views@[i]),
        forall|x: GraphEdge| #[trigger] final(model).edges@.contains(x) ==> old(model).edges@.contains(x)
            || exists|i: int| 0 <= i < history@.len() && edge_json(x) == evidence_edge_key(#[trigger] history@[i]),
        forall|x: GraphEdge| #[trigger] old(model).edges@.contains(x) ==> final(model).edges@.contains(x),
        forall|i: int| 0 <= i < history@.len() ==> final(model).edges@.contains(evidence_edge(#[trigger] history@[i])),
        final(model).artifacts == old(model).artifacts,
        final(model).decisions == old(model).decisions,
        final(model).constraints == old(model).constraints,
        final(model).facts == old(model).facts,
        final(model).declarations == old(model).declarations,
        final(model).fact_coverage == old(model).fact_coverage,
{
    let ghost m0 = *model;
    let mut views: Vec<EvidenceView> = Vec::new();
    let mut i: usize = 0;
    while i < history.len()
        invariant
            i <= history@.len(),
            config@ == solver_configuration(timeout_ms),
            views@.len() == i,
            forall|j: int| 0 <= j < i ==> view_of(history@[j], validity_of(history@[j], current@, backend_version@, solver_configuration(timeout_ms)), #[trigger] views@[j]),
            model.edges@.len() == m0.edges@.len() + i,
            forall|j: int| 0 <= j < m0.edges@.len() ==> model.edges@[j] == m0.edges@[j],
            forall|j: int| 0 <= j < i ==> #[trigger] model.edges@[m0.edges@.len() + j] == evidence_edge(history@[j]),
            model.artifacts == m0.artifacts,
            model.decisions == m0.decisions,
            model.constraints == m0.constraints,
            model.facts == m0.facts,
            model.declarations == m0.declarations,
            model.fact_coverage == m0.fact_coverage,
        decreases history.len() - i,
    {
        let item = &history[i];
        let validity = crate::evidence::assess(item, current, backend_version, config);
        let e = GraphEdge {
            from: GraphNode::ProofObligation(item.obligation.clone()),
            kind: LinkKind::EvidenceFor,
            to: GraphNode::Evidence(item.id.clone()),
        };
        proof {
            assert(e == evidence_edge(*item));
        }
        model.edges.push(e);
        views.push(EvidenceView {
            id: own(item.id.0.as_str()),
            result_at_execution: item.result_at_execution,
            current_validity: validity,
            backend: own(item.backend.as_str()),
            backend_version: own(item.backend_version.as_str()),
        });
        i = i + 1;
    }
    proof {
        assert forall|x: GraphEdge| #[trigger] model.edges@.contains(x) implies m0.edges@.contains(x)
            || exists|i: int| 0 <= i < history@.len() && edge_json(x) == evidence_edge_key(#[trigger] history@[i]) by {
            let k = choose|k: int| 0 <= k < model.edges@.len() && model.edges@[k] == x;
            if k < m0.edges@.len() {
                assert(m0.edges@[k] == x);
            } else {
                let j = k - m0.edges@.len();
                assert(model.edges@[m0.edges@.len() + j] == evidence_edge(history@[j]));
            }
        };
        assert forall|x: GraphEdge| #[trigger] m0.edges@.contains(x) implies model.edges@.contains(x) by {
            let k = choose|k: int| 0 <= k < m0.edges@.len() && m0.edges@[k] == x;
            assert(model.edges@[k] == x);
        };
        assert forall|i: int| 0 <= i < history@.len() implies model.edges@.contains(evidence_edge(#[trigger] history@[i])) by {
            assert(model.edges@[m0.edges@.len() + i] == evidence_edge(history@[i]));
        };
    }
    views
}

/// The project model with its evidence linked in, and the evidence assessed against
/// the current inputs.
fn context(
    roots: &VerificationRoots,
    documents: &Vec<(String, String)>,
    cargo: Option<(CargoMetadata, Vec<(String, String)>)>,
    contents: &Vec<(String, Vec<u8>)>,
    history: Vec<Evidence>,
    backend_version: &str,
    timeout_ms: u64,
) -> (r: Result<(ProjectModel, Vec<EvidenceView>), Error>)
    ensures
        (exists|i: int| 0 <= i < documents@.len() && !crate::document::has_front_matter((#[trigger] documents@[i]).1@)) ==> r is Err,
        crate::assembly::loads(documents@) && crate::assembly::inputs_given(*roots, documents@, cargo, contents@) ==> r is Ok,
        r matches Ok((out, views)) ==> exists|adrs: Seq<Adr>, m: ProjectModel, inputs: Seq<SemanticInput>|
            #[trigger] crate::document::read_from(documents@, adrs) && #[trigger] assembled(*roots, adrs, cargo, m, inputs)
            && context_of(m, inputs, contents@, history@, backend_version@, timeout_ms, out, views@),
{
    let ghost cargo_v = cargo;
    let (model, inputs) = match crate::assembly::load_project_model_with_roots(roots, documents, cargo) {
        Ok(x) => x,
        Err(e) => return Err(e),
    };
    let ghost mv = model;
    let ob = crate::lowering::relational_obligation(model);
    proof {
        if crate::assembly::inputs_given(*roots, documents@, cargo_v, contents@) {
            let adrs = choose|adrs: Seq<Adr>| #[trigger] crate::document::read_from(documents@, adrs)
                && crate::document::parsed_as(documents@, adrs) && crate::assembly::assembles(adrs) && assembled(*roots, adrs, cargo_v, mv, inputs@);
            assert(crate::document::parsed_as(documents@, adrs) && assembled(*roots, adrs, cargo_v, mv, inputs@)
                && crate::lowering::is_obligation_of(mv, ob));
            assert(crate::assembly::inputs_available(ob, inputs@, contents@));
        }
    }
    let current = match current_of(&ob, &inputs, contents) {
        Ok(c) => c,
        Err(e) => return Err(e),
    };
    let mut flags: Vec<String> = Vec::new();
    flags.push(own("smt.core.minimize=true"));
    let config = crate::evidence::configuration_hash(timeout_ms, &flags);
    proof {
        assert(strs(flags@) =~= seq!["smt.core.minimize=true"@]);
    }
    let ghost obv = ob;
    let ghost hv = history@;
    let RelationalProofObligation { id: _, model: mut out } = ob;
    let views = link_and_view(&mut out, history, &current, backend_version, config.as_str(), Ghost(timeout_ms));
    let ghost o1 = out;
    out.normalize();
    proof {
        assert forall|k: Seq<char>| #[trigger] has_key(out.edges@, k) <==> (has_key(obv.model.edges@, k) || exists|i: int| 0 <= i < hv.len() && k == evidence_edge_key(#[trigger] hv[i])) by {
            if has_key(out.edges@, k) {
                let j = choose|j: int| 0 <= j < out.edges@.len() && #[trigger] out.edges@[j].key() == k;
                assert(out.edges@.contains(out.edges@[j]));
                assert(o1.edges@.contains(out.edges@[j]));
                if obv.model.edges@.contains(out.edges@[j]) {
                    let q = choose|q: int| 0 <= q < obv.model.edges@.len() && obv.model.edges@[q] == out.edges@[j];
                    assert(obv.model.edges@[q].key() == k);
                }
            }
            if has_key(obv.model.edges@, k) {
                let q = choose|q: int| 0 <= q < obv.model.edges@.len() && #[trigger] obv.model.edges@[q].key() == k;
                assert(obv.model.edges@.contains(obv.model.edges@[q]));
                assert(o1.edges@.contains(obv.model.edges@[q]));
            }
            if exists|i: int| 0 <= i < hv.len() && k == evidence_edge_key(#[trigger] hv[i]) {
                let i = choose|i: int| 0 <= i < hv.len() && k == evidence_edge_key(#[trigger] hv[i]);
                assert(o1.edges@.contains(evidence_edge(hv[i])));
            }
        };
        assert(in_context(obv, current@, hv, backend_version@, timeout_ms, out, views@));
        assert(context_of(mv, inputs@, contents@, hv, backend_version@, timeout_ms, out, views@));
    }
    Ok((out, views))
}

// ---------------------------------------------------------------------------
// Status
// ---------------------------------------------------------------------------

/// The count key of an assessed result: stale evidence counts as stale, current
/// evidence by its result.
pub open spec fn status_key(v: EvidenceView) -> Seq<char> {
    match v.current_validity {
        EvidenceValidity::Stale => "STALE"@,
        EvidenceValidity::Current => match v.result_at_execution {
            VerificationStatus::Pass => "PASS"@,
            VerificationStatus::Fail => "FAIL"@,
            VerificationStatus::Unknown => "UNKNOWN"@,
            VerificationStatus::Error => "ERROR"@,
            VerificationStatus::Unverified => "UNVERIFIED"@,
            VerificationStatus::NotApplicable => "NOT_APPLICABLE"@,
            VerificationStatus::Stale => "STALE"@,
        },
    }
}

/// Stale evidence is counted as `STALE` whatever result it recorded; it is counted
/// as `PASS` only when it is current and recorded a pass, and as `FAIL` only when it
/// is current and recorded a failure. Current evidence is counted under the name of
/// the result it recorded.
pub proof fn law_status_key(v: EvidenceView)
    ensures
        v.current_validity == EvidenceValidity::Stale ==> status_key(v) == "STALE"@,
        status_key(v) == "PASS"@ <==> v.current_validity == EvidenceValidity::Current
            && v.result_at_execution == VerificationStatus::Pass,
        status_key(v) == "FAIL"@ <==> v.current_validity == EvidenceValidity::Current
            && v.result_at_execution == VerificationStatus::Fail,
        status_key(v) == "ERROR"@ <==> v.current_validity == EvidenceValidity::Current
            && v.result_at_execution == VerificationStatus::Error,
{
    reveal_strlit("STALE");
    reveal_strlit("PASS");
    reveal_strlit("FAIL");
    reveal_strlit("UNKNOWN");
    reveal_strlit("ERROR");
    reveal_strlit("UNVERIFIED");
    reveal_strlit("NOT_APPLICABLE");
    assert("STALE"@ != "PASS"@) by {
        assert("STALE"@.len() != "PASS"@.len());
    };
    assert("STALE"@ != "FAIL"@) by {
        assert("STALE"@.len() != "FAIL"@.len());
    };
    assert("STALE"@ != "UNKNOWN"@) by {
        assert("STALE"@.len() != "UNKNOWN"@.len());
    };
    assert("STALE"@ != "ERROR"@) by {
        assert("STALE"@[0] != "ERROR"@[0]);
    };
    assert("STALE"@ != "UNVERIFIED"@) by {
        assert("STALE"@.len() != "UNVERIFIED"@.len());
    };
    assert("STALE"@ != "NOT_APPLICABLE"@) by {
        assert("STALE"@.len() != "NOT_APPLICABLE"@.len());
    };
    assert("PASS"@ != "FAIL"@) by {
        assert("PASS"@[0] != "FAIL"@[0]);
    };
    assert("PASS"@ != "UNKNOWN"@) by {
        assert("PASS"@.len() != "UNKNOWN"@.len());
    };
    assert("PASS"@ != "ERROR"@) by {
        assert("PASS"@.len() != "ERROR"@.len());
    };
    assert("PASS"@ != "UNVERIFIED"@) by {
        assert("PASS"@.len() != "UNVERIFIED"@.len());
    };
    assert("PASS"@ != "NOT_APPLICABLE"@) by {
        assert("PASS"@.len() != "NOT_APPLICABLE"@.len());
    };
    assert("FAIL"@ != "UNKNOWN"@) by {
        assert("FAIL"@.len() != "UNKNOWN"@.len());
    };
    assert("FAIL"@ != "ERROR"@) by {
        assert("FAIL"@.len() != "ERROR"@.len());
    };
    assert("FAIL"@ != "UNVERIFIED"@) by {
        assert("FAIL"@.len() != "UNVERIFIED"@.len());
    };
    assert("FAIL"@ != "NOT_APPLICABLE"@) by {
        assert("FAIL"@.len() != "NOT_APPLICABLE"@.len());
    };
    assert("UNKNOWN"@ != "ERROR"@) by {
        assert("UNKNOWN"@.len() != "ERROR"@.len());
    };
    assert("UNKNOWN"@ != "UNVERIFIED"@) by {
        assert("UNKNOWN"@.len() != "UNVERIFIED"@.len());
    };
    assert("UNKNOWN"@ != "NOT_APPLICABLE"@) by {
        assert("UNKNOWN"@.len() != "NOT_APPLICABLE"@.len());
    };
    assert("ERROR"@ != "UNVERIFIED"@) by {
        assert("ERROR"@.len() != "UNVERIFIED"@.len());
    };
    assert("ERROR"@ != "NOT_APPLICABLE"@) by {
        assert("ERROR"@.len() != "NOT_APPLICABLE"@.len());
    };
    assert("UNVERIFIED"@ != "NOT_APPLICABLE"@) by {
        assert("UNVERIFIED"@.len() != "NOT_APPLICABLE"@.len());
    };
}

fn status_key_exec(v: &EvidenceView) -> (r: String)
    ensures
        r@ == status_key(*v),
        v.current_validity == EvidenceValidity::Stale ==> r@ == "STALE"@,
        r@ == "PASS"@ ==> v.current_validity == EvidenceValidity::Current && v.result_at_execution == VerificationStatus::Pass,
{
    proof {
        law_status_key(*v);
    }
    match v.current_validity {
        EvidenceValidity::Stale => own("STALE"),
        EvidenceValidity::Current => match v.result_at_execution {
            VerificationStatus::Pass => own("PASS"),
            VerificationStatus::Fail => own("FAIL"),
            VerificationStatus::Unknown => own("UNKNOWN"),
            VerificationStatus::Error => own("ERROR"),
            VerificationStatus::Unverified => own("UNVERIFIED"),
            VerificationStatus::NotApplicable => own("NOT_APPLICABLE"),
            VerificationStatus::Stale => own("STALE"),
        },
    }
}

pub open spec fn same_view(a: EvidenceView, b: EvidenceView) -> bool {
    &&& a.id@ == b.id@
    &&& a.result_at_execution == b.result_at_execution
    &&& a.current_validity == b.current_validity
    &&& a.backend@ == b.backend@
    &&& a.backend_version@ == b.backend_version@
}

fn copy_view(v: &EvidenceView) -> (r: EvidenceView)
    ensures
        same_view(r, *v),
{
    EvidenceView {
        id: own(v.id.as_str()),
        result_at_execution: v.result_at_execution,
        current_validity: v.current_validity,
        backend: own(v.backend.as_str()),
        backend_version: own(v.backend_version.as_str()),
    }
}

/// Some constraint implements decision `d`.
pub open spec fn constrained(m: ProjectModel, d: Seq<char>) -> bool {
    exists|i: int| 0 <= i < m.constraints@.len() && (#[trigger] m.constraints@[i]).decision.0@ == d
}

/// The decisions of `ds` that no constraint of `m` implements, in order.
pub open spec fn unconstrained(ds: Seq<crate::project::Decision>, m: ProjectModel) -> Seq<Seq<char>>
    decreases ds.len(),
{
    if ds.len() == 0 {
        Seq::empty()
    } else if constrained(m, ds.last().id.0@) {
        unconstrained(ds.drop_last(), m)
    } else {
        unconstrained(ds.drop_last(), m).push(ds.last().id.0@)
    }
}

/// The status report over the context `out` and assessed evidence `views`: the
/// latest assessment (the last) counted under its key; without evidence every
/// constraint is unverified; the decisions that no constraint implements.
pub open spec fn status_of_context(out: ProjectModel, views: Seq<EvidenceView>, rep: StatusReport) -> bool {
    &&& if views.len() == 0 {
        &&& rep.current@.len() == 0
        &&& rep.latest_evidence@.len() == 0
        &&& strs(rep.unverified_constraints@) == out.constraints@.map_values(|c: crate::project::IntentConstraint| c.id.0@)
    } else {
        &&& rep.current@.len() == 1
        &&& rep.current@[0].0@ == status_key(views.last())
        &&& rep.current@[0].1 == 1
        &&& rep.latest_evidence@.len() == 1
        &&& same_view(rep.latest_evidence@[0], views.last())
        &&& rep.unverified_constraints@.len() == 0
    }
    &&& strs(rep.unverified_intent@) == unconstrained(out.decisions@, out)
}

fn constrained_exec(m: &ProjectModel, d: &str) -> (r: bool)
    ensures
        r == constrained(*m, d@),
{
    let mut i: usize = 0;
    while i < m.constraints.len()
        invariant
            i <= m.constraints@.len(),
            forall|j: int| 0 <= j < i ==> (#[trigger] m.constraints@[j]).decision.0@ != d@,
        decreases m.constraints.len() - i,
    {
        if str_eq(m.constraints[i].decision.0.as_str(), d) {
            return true;
        }
        i = i + 1;
    }
    false
}

fn status_from_context(roots: &VerificationRoots, out: &ProjectModel, views: &Vec<EvidenceView>) -> (rep: StatusReport)
    ensures
        status_of_context(*out, views@, rep),
        rep.roots.project_root == roots.project_root,
        rep.roots.specification_root == roots.specification_root,
        rep.roots.state_root == roots.state_root,
{
    let mut current: Vec<(String, usize)> = Vec::new();
    let mut latest: Vec<EvidenceView> = Vec::new();
    let mut unverified: Vec<String> = Vec::new();
    if views.len() > 0 {
        let last = &views[views.len() - 1];
        current.push((status_key_exec(last), 1));
        latest.push(copy_view(last));
    } else {
        let mut i: usize = 0;
        while i < out.constraints.len()
            invariant
                i <= out.constraints@.len(),
                strs(unverified@) == out.constraints@.take(i as int).map_values(|c: crate::project::IntentConstraint| c.id.0@),
            decreases out.constraints.len() - i,
        {
            let ghost u0 = unverified@;
            unverified.push(own(out.constraints[i].id.0.as_str()));
            proof {
                assert(strs(unverified@) =~= strs(u0).push(out.constraints@[i as int].id.0@));
                assert(out.constraints@.take(i + 1).map_values(|c: crate::project::IntentConstraint| c.id.0@)
                    =~= out.constraints@.take(i as int).map_values(|c: crate::project::IntentConstraint| c.id.0@).push(out.constraints@[i as int].id.0@));
            }
            i = i + 1;
        }
        proof {
            assert(out.constraints@.take(out.constraints@.len() as int) =~= out.constraints@);
        }
    }
    let mut intent: Vec<String> = Vec::new();
    let mut i: usize = 0;
    while i < out.decisions.len()
        invariant
            i <= out.decisions@.len(),
            strs(intent@) == unconstrained(out.decisions@.take(i as int), *out),
        decreases out.decisions.len() - i,
    {
        proof {
            assert(out.decisions@.take(i + 1).drop_last() =~= out.decisions@.take(i as int));
        }
        let d = &out.decisions[i];
        if !constrained_exec(out, d.id.0.as_str()) {
            let ghost i0 = intent@;
            intent.push(own(d.id.0.as_str()));
            proof {
                assert(strs(intent@) =~= strs(i0).push(d.id.0@));
            }
        }
        i = i + 1;
    }
    proof {
        assert(out.decisions@.take(out.decisions@.len() as int) =~= out.decisions@);
    }
    StatusReport {
        roots: roots.view(),
        current,
        latest_evidence: latest,
        unverified_constraints: unverified,
        unverified_intent: intent,
    }
}

/// The verification status of the project: the latest evidence assessed against the
/// current inputs, the constraints without evidence, and the decisions that no
/// constraint implements.
pub fn status_with_roots(
    roots: &VerificationRoots,
    documents: &Vec<(String, String)>,
    cargo: Option<(CargoMetadata, Vec<(String, String)>)>,
    contents: &Vec<(String, Vec<u8>)>,
    history: Vec<Evidence>,
    backend_version: &str,
    timeout_ms: u64,
) -> (r: Result<StatusReport, Error>)
    ensures
        crate::assembly::loads(documents@) && crate::assembly::inputs_given(*roots, documents@, cargo, contents@) ==> r is Ok,
        (exists|i: int| 0 <= i < documents@.len() && !crate::document::has_front_matter((#[trigger] documents@[i]).1@)) ==> r is Err,
        r matches Ok(rep) ==> exists|adrs: Seq<Adr>, m: ProjectModel, inputs: Seq<SemanticInput>, out: ProjectModel, views: Seq<EvidenceView>|
            #[trigger] crate::document::read_from(documents@, adrs) && #[trigger] assembled(*roots, adrs, cargo, m, inputs)
            && #[trigger] context_of(m, inputs, contents@, history@, backend_version@, timeout_ms, out, views)
            && status_of_context(out, views, rep),
        r matches Ok(rep) ==> rep.roots.project_root == roots.project_root && rep.roots.specification_root == roots.specification_root
            && rep.roots.state_root == roots.state_root,
{
    let (out, views) = match context(roots, documents, cargo, contents, history, backend_version, timeout_ms) {
        Ok(x) => x,
        Err(e) => return Err(e),
    };
    let rep = status_from_context(roots, &out, &views);
    Ok(rep)
}

/// `status_with_roots` for a project whose specification and workspace share
/// `root`, with `artifacts` as the state root.
pub fn status(
    root: &str,
    artifacts: &str,
    cwd: &str,
    documents: &Vec<(String, String)>,
    cargo: Option<(CargoMetadata, Vec<(String, String)>)>,
    contents: &Vec<(String, Vec<u8>)>,
    history: Vec<Evidence>,
    backend_version: &str,
    timeout_ms: u64,
) -> (r: Result<StatusReport, Error>)
    ensures
        crate::assembly::loads(documents@) && (forall|roots: VerificationRoots| #[trigger] crate::roots::roots_of(roots, root@, root@, artifacts@, cwd@)
            ==> crate::assembly::inputs_given(roots, documents@, cargo, contents@)) ==> r is Ok,
        (exists|i: int| 0 <= i < documents@.len() && !crate::document::has_front_matter((#[trigger] documents@[i]).1@)) ==> r is Err,
        r matches Ok(rep) ==> rep.roots.project_root@ == crate::roots::normalized(root@, cwd@)
            && rep.roots.state_root@ == crate::roots::normalized(artifacts@, cwd@)
            && exists|roots: VerificationRoots, adrs: Seq<Adr>, m: ProjectModel, inputs: Seq<SemanticInput>, out: ProjectModel, views: Seq<EvidenceView>|
                #[trigger] crate::roots::roots_of(roots, root@, root@, artifacts@, cwd@)
                && #[trigger] crate::document::read_from(documents@, adrs) && #[trigger] assembled(roots, adrs, cargo, m, inputs)
                && #[trigger] context_of(m, inputs, contents@, history@, backend_version@, timeout_ms, out, views)
                && status_of_context(out, views, rep),
{
    let roots = VerificationRoots::legacy(root, artifacts, cwd);
    status_with_roots(&roots, documents, cargo, contents, history, backend_version, timeout_ms)
}

// ---------------------------------------------------------------------------
// Impact and explanation
// ---------------------------------------------------------------------------

/// The first index of `s` whose key is `k`.
pub open spec fn first_with_key<T: Keyed>(s: Seq<T>, k: Seq<char>, i: int) -> bool {
    0 <= i < s.len() && s[i].key() == k && forall|j: int| 0 <= j < i ==> (#[trigger] s[j]).key() != k
}

/// The graph node an identifier names: a constraint, else a fact (also under a
/// `CARGO:` prefix), else an artifact, else the consistency obligation, else evidence.
pub open spec fn node_named(m: ProjectModel, id: Seq<char>, n: Option<GraphNode>) -> bool {
    if has_key(m.constraints@, id) {
        n matches Some(GraphNode::Constraint(c)) && c.0@ == id
    } else if exists|i: int| 0 <= i < m.facts@.len() && ((#[trigger] m.facts@[i]).id.0@ == id || "CARGO:"@ + m.facts@[i].id.0@ == id) {
        n matches Some(GraphNode::Fact(f)) && exists|i: int| 0 <= i < m.facts@.len() && #[trigger] m.facts@[i].id == f
            && (f.0@ == id || "CARGO:"@ + f.0@ == id)
            && forall|j: int| 0 <= j < i ==> !((#[trigger] m.facts@[j]).id.0@ == id || "CARGO:"@ + m.facts@[j].id.0@ == id)
    } else if has_key(m.artifacts@, id) {
        n matches Some(GraphNode::Artifact(a)) && a.0@ == id
    } else if id == crate::lowering::obligation_name() {
        n matches Some(GraphNode::ProofObligation(o)) && o.0@ == id
    } else if crate::text::occurs_at(id, 0, "EVIDENCE:"@) {
        n matches Some(GraphNode::Evidence(e)) && e.0@ == id
    } else {
        n is None
    }
}

fn node_for(m: &ProjectModel, id: &str) -> (r: Option<GraphNode>)
    ensures
        node_named(*m, id@, r),
{
    match crate::keyed::find_key(&m.constraints, id) {
        Some(i) => return Some(GraphNode::Constraint(m.constraints[i].id.clone())),
        None => {},
    }
    let mut i: usize = 0;
    while i < m.facts.len()
        invariant
            i <= m.facts@.len(),
            !has_key(m.constraints@, id@),
            forall|j: int| 0 <= j < i ==> !((#[trigger] m.facts@[j]).id.0@ == id@ || "CARGO:"@ + m.facts@[j].id.0@ == id@),
        decreases m.facts.len() - i,
    {
        let prefixed = cat("CARGO:", m.facts[i].id.0.as_str());
        if str_eq(m.facts[i].id.0.as_str(), id) || str_eq(prefixed.as_str(), id) {
            let f = m.facts[i].id.clone();
            proof {
                assert(m.facts@[i as int].id == f);
                assert(m.facts@[i as int].id.0@ == id@ || "CARGO:"@ + m.facts@[i as int].id.0@ == id@);
            }
            return Some(GraphNode::Fact(f));
        }
        i = i + 1;
    }
    match crate::keyed::find_key(&m.artifacts, id) {
        Some(i) => return Some(GraphNode::Artifact(m.artifacts[i].id.clone())),
        None => {},
    }
    proof {
        reveal_strlit("PO:project-consistency");
    }
    if str_eq(id, "PO:project-consistency") {
        return Some(GraphNode::ProofObligation(crate::project::ProofObligationId(own(id))));
    }
    let ic = crate::text::chars_of(id);
    if crate::text::occurs_at_exec(&ic, 0, "EVIDENCE:") {
        return Some(GraphNode::Evidence(crate::project::EvidenceId(own(id))));
    }
    None
}

/// A path of `m` through `node`: one from the node itself, or one from an artifact
/// that has an edge into the node.
pub open spec fn path_through(m: ProjectModel, node: GraphNode, p: Seq<Seq<char>>) -> bool {
    ||| crate::graph::reported(m.edges@, node, p)
    ||| exists|a: int| 0 <= a < m.artifacts@.len() && crate::graph::reported(m.edges@, GraphNode::Artifact((#[trigger] m.artifacts@[a]).id), p)
        && exists|q: int| 0 <= q < p.len() && #[trigger] ends_in(p[q], "--> "@ + crate::graph::node_label(node))
}

pub open spec fn ends_in(s: Seq<char>, pat: Seq<char>) -> bool {
    pat.len() <= s.len() && s.subrange(s.len() - pat.len(), s.len() as int) == pat
}

fn mentions_node(p: &Vec<String>, marker: &str) -> (r: bool)
    ensures
        r == exists|q: int| 0 <= q < p@.len() && #[trigger] ends_in(strs(p@)[q], marker@),
{
    let mut q: usize = 0;
    while q < p.len()
        invariant
            q <= p@.len(),
            forall|q2: int| 0 <= q2 < q ==> !#[trigger] ends_in(strs(p@)[q2], marker@),
        decreases p.len() - q,
    {
        if crate::text::ends_with(p[q].as_str(), marker) {
            proof {
                assert(strs(p@)[q as int] == p@[q as int]@);
                assert(ends_in(strs(p@)[q as int], marker@));
            }
            return true;
        }
        proof {
            assert(strs(p@)[q as int] == p@[q as int]@);
        }
        q = q + 1;
    }
    false
}

/// Every path through `node`, sorted and each once.
fn paths_through(m: &ProjectModel, node: &GraphNode) -> (r: Vec<Vec<String>>)
    ensures
        crate::graph::lex_sorted(crate::graph::path_views(r@)),
        forall|p: Seq<Seq<char>>| #[trigger] crate::graph::path_views(r@).contains(p) <==> path_through(*m, *node, p),
{
    let label = crate::graph::node_label_exec(node);
    let marker = cat("--> ", label.as_str());
    let own_paths = crate::graph::paths_from_edges(&m.edges, node);
    let mut out: Vec<Vec<String>> = Vec::new();
    let mut i: usize = 0;
    while i < own_paths.len()
        invariant
            i <= own_paths@.len(),
            crate::graph::lex_sorted(crate::graph::path_views(out@)),
            forall|p: Seq<Seq<char>>| #[trigger] crate::graph::path_views(out@).contains(p) <==> exists|q: int| 0 <= q < i
                && crate::graph::path_views(own_paths@)[q] == p,
        decreases own_paths.len() - i,
    {
        let ghost o0 = crate::graph::path_views(out@);
        let p = crate::project::clone_strings(&own_paths[i]);
        crate::graph::insert_path(&mut out, p);
        proof {
            assert(crate::graph::path_views(own_paths@)[i as int] == strs(own_paths@[i as int]@));
            assert forall|x: Seq<Seq<char>>| #[trigger] crate::graph::path_views(out@).contains(x) <==> exists|q: int| 0 <= q < i + 1
                && crate::graph::path_views(own_paths@)[q] == x by {
                if exists|q: int| 0 <= q < i + 1 && crate::graph::path_views(own_paths@)[q] == x {
                    let q = choose|q: int| 0 <= q < i + 1 && crate::graph::path_views(own_paths@)[q] == x;
                    if q < i {
                        assert(o0.contains(x));
                    }
                }
            };
        }
        i = i + 1;
    }
    proof {
        assert forall|p: Seq<Seq<char>>| #[trigger] crate::graph::path_views(out@).contains(p) <==> (crate::graph::reported(m.edges@, *node, p)
            || exists|a2: int| 0 <= a2 < 0 && crate::graph::reported(m.edges@, GraphNode::Artifact((#[trigger] m.artifacts@[a2]).id), p)
                && exists|q: int| 0 <= q < p.len() && #[trigger] ends_in(p[q], "--> "@ + crate::graph::node_label(*node))) by {
            assert(crate::graph::path_views(own_paths@).len() == own_paths@.len());
            if crate::graph::reported(m.edges@, *node, p) {
                assert(crate::graph::path_views(own_paths@).contains(p));
                let q = choose|q: int| 0 <= q < crate::graph::path_views(own_paths@).len() && crate::graph::path_views(own_paths@)[q] == p;
                assert(exists|q: int| 0 <= q < i && crate::graph::path_views(own_paths@)[q] == p);
            }
            if crate::graph::path_views(out@).contains(p) {
                let q = choose|q: int| 0 <= q < i && crate::graph::path_views(own_paths@)[q] == p;
                assert(crate::graph::path_views(own_paths@).contains(p));
            }
        };
    }
    let mut a: usize = 0;
    while a < m.artifacts.len()
        invariant
            a <= m.artifacts@.len(),
            marker@ == "--> "@ + crate::graph::node_label(*node),
            crate::graph::lex_sorted(crate::graph::path_views(out@)),
            forall|p: Seq<Seq<char>>| #[trigger] crate::graph::path_views(out@).contains(p) <==> (crate::graph::reported(m.edges@, *node, p)
                || exists|a2: int| 0 <= a2 < a && crate::graph::reported(m.edges@, GraphNode::Artifact((#[trigger] m.artifacts@[a2]).id), p)
                    && exists|q: int| 0 <= q < p.len() && #[trigger] ends_in(p[q], "--> "@ + crate::graph::node_label(*node))),
        decreases m.artifacts.len() - a,
    {
        let from = GraphNode::Artifact(m.artifacts[a].id.clone());
        let theirs = crate::graph::paths_from_edges(&m.edges, &from);
        let ghost ob = crate::graph::path_views(out@);
        let mut q: usize = 0;
        while q < theirs.len()
            invariant
                q <= theirs@.len(),
                crate::graph::lex_sorted(crate::graph::path_views(out@)),
                forall|p: Seq<Seq<char>>| #[trigger] crate::graph::path_views(out@).contains(p) <==> (ob.contains(p)
                    || exists|q2: int| 0 <= q2 < q && crate::graph::path_views(theirs@)[q2] == p
                        && exists|t: int| 0 <= t < p.len() && #[trigger] ends_in(p[t], marker@)),
            decreases theirs.len() - q,
        {
            let ghost o1 = crate::graph::path_views(out@);
            proof {
                assert(crate::graph::path_views(theirs@)[q as int] == strs(theirs@[q as int]@));
            }
            if mentions_node(&theirs[q], marker.as_str()) {
                let p = crate::project::clone_strings(&theirs[q]);
                crate::graph::insert_path(&mut out, p);
            }
            proof {
                assert forall|x: Seq<Seq<char>>| #[trigger] crate::graph::path_views(out@).contains(x) <==> (ob.contains(x)
                    || exists|q2: int| 0 <= q2 < q + 1 && crate::graph::path_views(theirs@)[q2] == x
                        && exists|t: int| 0 <= t < x.len() && #[trigger] ends_in(x[t], marker@)) by {
                    if exists|q2: int| 0 <= q2 < q + 1 && crate::graph::path_views(theirs@)[q2] == x
                        && exists|t: int| 0 <= t < x.len() && #[trigger] ends_in(x[t], marker@) {
                        let q2 = choose|q2: int| 0 <= q2 < q + 1 && crate::graph::path_views(theirs@)[q2] == x
                            && exists|t: int| 0 <= t < x.len() && #[trigger] ends_in(x[t], marker@);
                        if q2 < q {
                            assert(o1.contains(x));
                        }
                    }
                };
            }
            q = q + 1;
        }
        proof {
            assert forall|p: Seq<Seq<char>>| #[trigger] crate::graph::path_views(out@).contains(p) <==> (crate::graph::reported(m.edges@, *node, p)
                || exists|a2: int| 0 <= a2 < a + 1 && crate::graph::reported(m.edges@, GraphNode::Artifact((#[trigger] m.artifacts@[a2]).id), p)
                    && exists|t: int| 0 <= t < p.len() && #[trigger] ends_in(p[t], "--> "@ + crate::graph::node_label(*node))) by {
                assert(from == GraphNode::Artifact(m.artifacts@[a as int].id));
                if exists|q2: int| 0 <= q2 < theirs@.len() && crate::graph::path_views(theirs@)[q2] == p {
                    let q2 = choose|q2: int| 0 <= q2 < theirs@.len() && crate::graph::path_views(theirs@)[q2] == p;
                    assert(crate::graph::path_views(theirs@).contains(p));
                }
                if crate::graph::reported(m.edges@, from, p) {
                    assert(crate::graph::path_views(theirs@).contains(p));
                    let q2 = choose|q2: int| 0 <= q2 < crate::graph::path_views(theirs@).len() && crate::graph::path_views(theirs@)[q2] == p;
                }
                if exists|a2: int| 0 <= a2 < a + 1 && crate::graph::reported(m.edges@, GraphNode::Artifact((#[trigger] m.artifacts@[a2]).id), p)
                    && exists|t: int| 0 <= t < p.len() && #[trigger] ends_in(p[t], "--> "@ + crate::graph::node_label(*node)) {
                    let a2 = choose|a2: int| 0 <= a2 < a + 1 && crate::graph::reported(m.edges@, GraphNode::Artifact((#[trigger] m.artifacts@[a2]).id), p)
                        && exists|t: int| 0 <= t < p.len() && #[trigger] ends_in(p[t], "--> "@ + crate::graph::node_label(*node));
                    if a2 < a {
                        assert(ob.contains(p));
                    }
                }
            };
        }
        a = a + 1;
    }
    proof {
        assert forall|p: Seq<Seq<char>>| #[trigger] crate::graph::path_views(out@).contains(p) <==> path_through(*m, *node, p) by {};
    }
    out
}

/// The identity under which `impact` looks `path` up: a `spec:` identity as it
/// stands, any other path as a project identity.
pub open spec fn impact_identity(roots: VerificationRoots, path: Seq<char>) -> Seq<char> {
    if "spec:"@.len() <= path.len() && path.subrange(0, "spec:"@.len() as int) == "spec:"@ {
        path
    } else {
        crate::roots::identity_of("project"@, roots.project_root@, path)
    }
}

/// The report reads the roots as they are.
pub open spec fn same_roots(roots: VerificationRoots, v: RootsView) -> bool {
    &&& v.project_root == roots.project_root
    &&& v.specification_root == roots.specification_root
    &&& v.state_root == roots.state_root
}

/// What `impact` reports for `path` in the model `m` with the evidence `views`:
/// the artifact's identity, and every shortest path from that artifact to a
/// proof obligation or evidence, sorted and each once.
pub open spec fn impact_report(roots: VerificationRoots, m: ProjectModel, views: Seq<EvidenceView>, path: Seq<char>, rep: QueryReport) -> bool {
    let id = impact_identity(roots, path);
    &&& same_roots(roots, rep.roots)
    &&& rep.subject@ == "artifact:"@ + id
    &&& strs(rep.provenance@) == seq![id]
    &&& rep.evidence@ == views
    &&& crate::graph::lex_sorted(crate::graph::path_views(rep.paths@))
    &&& exists|a: crate::project::ArtifactId| a.0@ == id
        && forall|p: Seq<Seq<char>>| #[trigger] crate::graph::path_views(rep.paths@).contains(p)
            <==> crate::graph::reported(m.edges@, GraphNode::Artifact(a), p)
}

/// The impact of `path`, given the model and evidence of the project.
pub fn impact_from_context(roots: &VerificationRoots, m: &ProjectModel, views: Vec<EvidenceView>, path: &str) -> (rep: QueryReport)
    ensures
        impact_report(*roots, *m, views@, path@, rep),
{
    let normalized = if crate::text::starts_with(path, "spec:") {
        own(path)
    } else {
        roots.project_identity(path)
    };
    let a = crate::project::ArtifactId(normalized.clone());
    let ghost ga = a;
    let node = GraphNode::Artifact(a);
    let paths = crate::graph::paths_from_edges(&m.edges, &node);
    proof {
        assert(ga.0@ == impact_identity(*roots, path@));
        assert(forall|p: Seq<Seq<char>>| #[trigger] crate::graph::path_views(paths@).contains(p)
            <==> crate::graph::reported(m.edges@, GraphNode::Artifact(ga), p));
    }
    let subject = cat("artifact:", normalized.as_str());
    let mut provenance: Vec<String> = Vec::new();
    provenance.push(normalized);
    proof {
        assert(strs(provenance@) =~= seq![impact_identity(*roots, path@)]);
    }
    QueryReport { roots: roots.view(), subject, provenance, paths, evidence: views }
}

/// The impact of a change to `path`: the project's model and evidence as
/// `status_with_roots` reads them, and every typed dependency path from the
/// artifact.
pub fn impact_with_roots(
    roots: &VerificationRoots,
    path: &str,
    documents: &Vec<(String, String)>,
    cargo: Option<(CargoMetadata, Vec<(String, String)>)>,
    contents: &Vec<(String, Vec<u8>)>,
    history: Vec<Evidence>,
    backend_version: &str,
    timeout_ms: u64,
) -> (r: Result<QueryReport, Error>)
    ensures
        crate::assembly::loads(documents@) && crate::assembly::inputs_given(*roots, documents@, cargo, contents@) ==> r is Ok,
        (exists|i: int| 0 <= i < documents@.len() && !crate::document::has_front_matter((#[trigger] documents@[i]).1@)) ==> r is Err,
        r matches Ok(rep) ==> exists|adrs: Seq<Adr>, m: ProjectModel, inputs: Seq<SemanticInput>, out: ProjectModel, views: Seq<EvidenceView>|
            #[trigger] crate::document::read_from(documents@, adrs) && #[trigger] assembled(*roots, adrs, cargo, m, inputs)
            && #[trigger] context_of(m, inputs, contents@, history@, backend_version@, timeout_ms, out, views)
            && impact_report(*roots, out, views, path@, rep),
{
    let (out, views) = match context(roots, documents, cargo, contents, history, backend_version, timeout_ms) {
        Ok(x) => x,
        Err(e) => return Err(e),
    };
    Ok(impact_from_context(roots, &out, views, path))
}

/// `impact_with_roots` for a project whose specification and workspace share
/// `root`, with `artifacts` as the state root.
pub fn impact(
    root: &str,
    artifacts: &str,
    cwd: &str,
    path: &str,
    documents: &Vec<(String, String)>,
    cargo: Option<(CargoMetadata, Vec<(String, String)>)>,
    contents: &Vec<(String, Vec<u8>)>,
    history: Vec<Evidence>,
    backend_version: &str,
    timeout_ms: u64,
) -> (r: Result<QueryReport, Error>)
    ensures
        crate::assembly::loads(documents@) && (forall|roots: VerificationRoots| #[trigger] crate::roots::roots_of(roots, root@, root@, artifacts@, cwd@)
            ==> crate::assembly::inputs_given(roots, documents@, cargo, contents@)) ==> r is Ok,
        (exists|i: int| 0 <= i < documents@.len() && !crate::document::has_front_matter((#[trigger] documents@[i]).1@)) ==> r is Err,
        r matches Ok(rep) ==> rep.roots.project_root@ == crate::roots::normalized(root@, cwd@)
            && rep.roots.state_root@ == crate::roots::normalized(artifacts@, cwd@)
            && exists|roots: VerificationRoots, adrs: Seq<Adr>, m: ProjectModel, inputs: Seq<SemanticInput>, out: ProjectModel, views: Seq<EvidenceView>|
                #[trigger] crate::roots::roots_of(roots, root@, root@, artifacts@, cwd@)
                && #[trigger] crate::document::read_from(documents@, adrs) && #[trigger] assembled(roots, adrs, cargo, m, inputs)
                && #[trigger] context_of(m, inputs, contents@, history@, backend_version@, timeout_ms, out, views)
                && impact_report(roots, out, views, path@, rep),
{
    let roots = VerificationRoots::legacy(root, artifacts, cwd);
    impact_with_roots(&roots, path, documents, cargo, contents, history, backend_version, timeout_ms)
}

/// Where a node comes from: a constraint's source and description, a fact's
/// source and `relation(arguments)`, an artifact's source; nothing for other
/// nodes or for one that the model does not hold.
pub open spec fn provenance_of(m: ProjectModel, n: GraphNode, p: Seq<Seq<char>>) -> bool {
    match n {
        GraphNode::Constraint(c) => if has_key(m.constraints@, c.0@) {
            exists|i: int| #[trigger] first_with_key(m.constraints@, c.0@, i)
                && p == seq![m.constraints@[i].provenance.source@ + ": "@ + m.constraints@[i].description@]
        } else {
            p == Seq::<Seq<char>>::empty()
        },
        GraphNode::Fact(f) => if has_key(m.facts@, f.0@) {
            exists|i: int| #[trigger] first_with_key(m.facts@, f.0@, i)
                && p == seq![m.facts@[i].provenance.source@ + ": "@ + m.facts@[i].relation@ + "("@
                    + crate::check::comma_list(strs(m.facts@[i].arguments@)) + ")"@]
        } else {
            p == Seq::<Seq<char>>::empty()
        },
        GraphNode::Artifact(a) => if has_key(m.artifacts@, a.0@) {
            exists|i: int| #[trigger] first_with_key(m.artifacts@, a.0@, i)
                && p == seq![m.artifacts@[i].provenance.source@]
        } else {
            p == Seq::<Seq<char>>::empty()
        },
        _ => p == Seq::<Seq<char>>::empty(),
    }
}

fn provenance_for(m: &ProjectModel, n: &GraphNode) -> (r: Vec<String>)
    ensures
        provenance_of(*m, *n, strs(r@)),
{
    let mut out: Vec<String> = Vec::new();
    match n {
        GraphNode::Constraint(c) => {
            match crate::keyed::find_key(&m.constraints, c.0.as_str()) {
                Some(i) => {
                    let item = &m.constraints[i];
                    out.push(cat3(item.provenance.source.as_str(), ": ", item.description.as_str()));
                    proof {
                        assert(first_with_key(m.constraints@, c.0@, i as int));
                        assert(strs(out@) =~= seq![m.constraints@[i as int].provenance.source@ + ": "@ + m.constraints@[i as int].description@]);
                    }
                },
                None => {
                    proof {
                        assert(strs(out@) =~= Seq::<Seq<char>>::empty());
                    }
                },
            }
        },
        GraphNode::Fact(f) => {
            match crate::keyed::find_key(&m.facts, f.0.as_str()) {
                Some(i) => {
                    let item = &m.facts[i];
                    let head = cat3(item.provenance.source.as_str(), ": ", item.relation.as_str());
                    let args = crate::check::comma_list_exec(&item.arguments);
                    let inner = cat3("(", args.as_str(), ")");
                    let line = cat(head.as_str(), inner.as_str());
                    proof {
                        assert(line@ =~= m.facts@[i as int].provenance.source@ + ": "@ + m.facts@[i as int].relation@ + "("@
                            + crate::check::comma_list(strs(m.facts@[i as int].arguments@)) + ")"@);
                    }
                    out.push(line);
                    proof {
                        assert(first_with_key(m.facts@, f.0@, i as int));
                        assert(strs(out@) =~= seq![m.facts@[i as int].provenance.source@ + ": "@ + m.facts@[i as int].relation@ + "("@
                            + crate::check::comma_list(strs(m.facts@[i as int].arguments@)) + ")"@]);
                    }
                },
                None => {
                    proof {
                        assert(strs(out@) =~= Seq::<Seq<char>>::empty());
                    }
                },
            }
        },
        GraphNode::Artifact(a) => {
            match crate::keyed::find_key(&m.artifacts, a.0.as_str()) {
                Some(i) => {
                    out.push(m.artifacts[i].provenance.source.clone());
                    proof {
                        assert(first_with_key(m.artifacts@, a.0@, i as int));
                        assert(strs(out@) =~= seq![m.artifacts@[i as int].provenance.source@]);
                    }
                },
                None => {
                    proof {
                        assert(strs(out@) =~= Seq::<Seq<char>>::empty());
                    }
                },
            }
        },
        _ => {
            proof {
                assert(strs(out@) =~= Seq::<Seq<char>>::empty());
            }
        },
    }
    out
}

/// The error for an identifier that names no node.
pub open spec fn unknown_id_message(id: Seq<char>) -> Seq<char> {
    "unknown graph id `"@ + id + "`"@
}

/// What `explain` reports for `id` in the model `m` with the evidence `views`:
/// the node the identifier names, where it comes from, and every path through it.
pub open spec fn explain_report(roots: VerificationRoots, m: ProjectModel, views: Seq<EvidenceView>, id: Seq<char>, rep: QueryReport) -> bool {
    &&& same_roots(roots, rep.roots)
    &&& rep.evidence@ == views
    &&& crate::graph::lex_sorted(crate::graph::path_views(rep.paths@))
    &&& exists|n: GraphNode| #[trigger] node_named(m, id, Some(n))
        && rep.subject@ == crate::graph::node_label(n)
        && provenance_of(m, n, strs(rep.provenance@))
        && forall|p: Seq<Seq<char>>| #[trigger] crate::graph::path_views(rep.paths@).contains(p) <==> path_through(m, n, p)
}

/// The explanation of `id`, given the model and evidence of the project: an
/// error exactly when the identifier names no node.
pub fn explain_from_context(roots: &VerificationRoots, m: &ProjectModel, views: Vec<EvidenceView>, id: &str) -> (r: Result<QueryReport, Error>)
    ensures
        r is Err <==> node_named(*m, id@, None),
        r matches Ok(rep) ==> explain_report(*roots, *m, views@, id@, rep),
        r matches Err(e) ==> e matches Error::ProviderFailure(msg) && msg@ == unknown_id_message(id@),
{
    let node = match node_for(m, id) {
        Some(n) => n,
        None => return Err(Error::ProviderFailure(cat3("unknown graph id `", id, "`"))),
    };
    let provenance = provenance_for(m, &node);
    let paths = paths_through(m, &node);
    let subject = crate::graph::node_label_exec(&node);
    let rep = QueryReport { roots: roots.view(), subject, provenance, paths, evidence: views };
    proof {
        assert(node_named(*m, id@, Some(node)));
    }
    Ok(rep)
}

/// The explanation of a graph identifier: the project's model and evidence as
/// `status_with_roots` reads them, the node, its provenance and every path
/// through it.
pub fn explain_with_roots(
    roots: &VerificationRoots,
    id: &str,
    documents: &Vec<(String, String)>,
    cargo: Option<(CargoMetadata, Vec<(String, String)>)>,
    contents: &Vec<(String, Vec<u8>)>,
    history: Vec<Evidence>,
    backend_version: &str,
    timeout_ms: u64,
) -> (r: Result<QueryReport, Error>)
    ensures
        crate::assembly::loads(documents@) && crate::assembly::inputs_given(*roots, documents@, cargo, contents@) ==> (r matches Err(e) ==> (
            e matches Error::ProviderFailure(msg) && msg@ == unknown_id_message(id@))
            && exists|adrs: Seq<Adr>, m: ProjectModel, inputs: Seq<SemanticInput>, out: ProjectModel, views: Seq<EvidenceView>|
                #[trigger] crate::document::read_from(documents@, adrs) && #[trigger] assembled(*roots, adrs, cargo, m, inputs)
                && #[trigger] context_of(m, inputs, contents@, history@, backend_version@, timeout_ms, out, views)
                && node_named(out, id@, None)),
        (exists|i: int| 0 <= i < documents@.len() && !crate::document::has_front_matter((#[trigger] documents@[i]).1@)) ==> r is Err,
        r matches Ok(rep) ==> exists|adrs: Seq<Adr>, m: ProjectModel, inputs: Seq<SemanticInput>, out: ProjectModel, views: Seq<EvidenceView>|
            #[trigger] crate::document::read_from(documents@, adrs) && #[trigger] assembled(*roots, adrs, cargo, m, inputs)
            && #[trigger] context_of(m, inputs, contents@, history@, backend_version@, timeout_ms, out, views)
            && explain_report(*roots, out, views, id@, rep),
{
    let (out, views) = match context(roots, documents, cargo, contents, history, backend_version, timeout_ms) {
        Ok(x) => x,
        Err(e) => return Err(e),
    };
    explain_from_context(roots, &out, views, id)
}

/// `explain_with_roots` for a project whose specification and workspace share
/// `root`, with `artifacts` as the state root.
pub fn explain(
    root: &str,
    artifacts: &str,
    cwd: &str,
    id: &str,
    documents: &Vec<(String, String)>,
    cargo: Option<(CargoMetadata, Vec<(String, String)>)>,
    contents: &Vec<(String, Vec<u8>)>,
    history: Vec<Evidence>,
    backend_version: &str,
    timeout_ms: u64,
) -> (r: Result<QueryReport, Error>)
    ensures
        crate::assembly::loads(documents@) && (forall|roots: VerificationRoots| #[trigger] crate::roots::roots_of(roots, root@, root@, artifacts@, cwd@)
            ==> crate::assembly::inputs_given(roots, documents@, cargo, contents@)) ==> (r matches Err(e) ==> (e matches Error::ProviderFailure(msg) && msg@ == unknown_id_message(id@))),
        (exists|i: int| 0 <= i < documents@.len() && !crate::document::has_front_matter((#[trigger] documents@[i]).1@)) ==> r is Err,
        r matches Ok(rep) ==> rep.roots.project_root@ == crate::roots::normalized(root@, cwd@)
            && rep.roots.state_root@ == crate::roots::normalized(artifacts@, cwd@)
            && exists|roots: VerificationRoots, adrs: Seq<Adr>, m: ProjectModel, inputs: Seq<SemanticInput>, out: ProjectModel, views: Seq<EvidenceView>|
                #[trigger] crate::roots::roots_of(roots, root@, root@, artifacts@, cwd@)
                && #[trigger] crate::document::read_from(documents@, adrs) && #[trigger] assembled(roots, adrs, cargo, m, inputs)
                && #[trigger] context_of(m, inputs, contents@, history@, backend_version@, timeout_ms, out, views)
                && explain_report(roots, out, views, id@, rep),
{
    let roots = VerificationRoots::legacy(root, artifacts, cwd);
    explain_with_roots(&roots, id, documents, cargo, contents, history, backend_version, timeout_ms)
}

// ---------------------------------------------------------------------------
// Impact across specification, models, tests and correspondences
// ---------------------------------------------------------------------------

/// What a change reaches across every kind of dependency.
#[derive(Debug)]
pub struct HeterogeneousImpactReport {
    pub roots: RootsView,
    pub subject: String,
    pub paths: Vec<Vec<String>>,
    pub affected_obligations: Vec<String>,
    pub affected_evidence: Vec<String>,
    pub affected_parents: Vec<String>,
    pub relational_evidence: Vec<EvidenceView>,
}

/// A `Requires` edge read backwards.
pub open spec fn required_by(e: GraphEdge) -> GraphEdge {
    GraphEdge { from: e.to, kind: LinkKind::RequiredBy, to: e.from }
}

/// The first `k` edges' `Requires` edges, each read backwards.
pub open spec fn reversed_requires(edges: Seq<GraphEdge>, k: int) -> Seq<GraphEdge>
    decreases k,
{
    if k <= 0 {
        Seq::empty()
    } else if edges[k - 1].kind == LinkKind::Requires {
        reversed_requires(edges, k - 1).push(required_by(edges[k - 1]))
    } else {
        reversed_requires(edges, k - 1)
    }
}

/// The edges, with each `Requires` edge also read backwards.
pub open spec fn with_required_by(edges: Seq<GraphEdge>) -> Seq<GraphEdge> {
    edges + reversed_requires(edges, edges.len() as int)
}

fn add_required_by(edges: &mut Vec<GraphEdge>)
    ensures
        final(edges)@ == with_required_by(old(edges)@),
{
    let ghost e0 = edges@;
    let n = edges.len();
    let mut extra: Vec<GraphEdge> = Vec::new();
    let mut k: usize = 0;
    while k < n
        invariant
            k <= n,
            n == e0.len(),
            edges@ == e0,
            extra@ == reversed_requires(e0, k as int),
        decreases n - k,
    {
        if edges[k].kind == LinkKind::Requires {
            extra.push(GraphEdge { from: edges[k].to.clone(), kind: LinkKind::RequiredBy, to: edges[k].from.clone() });
        }
        k = k + 1;
    }
    let mut k: usize = 0;
    let ghost x0 = extra@;
    while k < extra.len()
        invariant
            k <= extra@.len(),
            extra@ == x0,
            edges@ == e0 + x0.take(k as int),
        decreases extra.len() - k,
    {
        edges.push(extra[k].clone());
        proof {
            assert(x0.take(k + 1) =~= x0.take(k as int).push(x0[k as int]));
        }
        k = k + 1;
    }
    proof {
        assert(x0.take(x0.len() as int) =~= x0);
    }
}

/// The identifiers after `prefix` of the labels that start with it, sorted, each once.
fn ids_with_prefix(labels: &Vec<String>, prefix: &str) -> (r: Vec<String>)
    ensures
        strictly_sorted(r@),
        forall|id: Seq<char>| #[trigger] set_has(r@, id) <==> set_has(labels@, prefix@ + id),
{
    let pc = crate::text::chars_of(prefix);
    let mut v: Vec<String> = Vec::new();
    let mut i: usize = 0;
    while i < labels.len()
        invariant
            i <= labels@.len(),
            pc@ == prefix@,
            forall|id: Seq<char>| #[trigger] strs(v@).contains(id) <==> exists|q: int| 0 <= q < i && (#[trigger] labels@[q])@ == prefix@ + id,
        decreases labels.len() - i,
    {
        let l = labels[i].as_str();
        let ghost sv0 = strs(v@);
        if crate::text::starts_with(l, prefix) {
            let lc = crate::text::chars_of(l);
            let rest = crate::text::slice_string(&lc, pc.len(), lc.len());
            v.push(rest);
            proof {
                assert(strs(v@) =~= sv0.push(rest@));
                assert(l@ =~= prefix@ + rest@);
                assert forall|id: Seq<char>| #[trigger] strs(v@).contains(id) <==> exists|q: int| 0 <= q < i + 1 && (#[trigger] labels@[q])@ == prefix@ + id by {
                    if l@ == prefix@ + id {
                        assert((prefix@ + id).subrange(prefix@.len() as int, (prefix@ + id).len() as int) =~= id);
                        assert(id == rest@);
                    }
                    if strs(v@).contains(id) && id != rest@ {
                        assert(sv0.contains(id)) by {
                            let j = choose|j: int| 0 <= j < strs(v@).len() && strs(v@)[j] == id;
                            assert(j < sv0.len());
                            assert(sv0[j] == id);
                        };
                    }
                    if id == rest@ {
                        assert(strs(v@)[sv0.len() as int] == id);
                        assert(labels@[i as int]@ == prefix@ + id);
                    }
                    if sv0.contains(id) {
                        let j = choose|j: int| 0 <= j < sv0.len() && sv0[j] == id;
                        assert(strs(v@)[j] == id);
                    }
                };
            }
        } else {
            proof {
                assert forall|id: Seq<char>| #[trigger] strs(v@).contains(id) <==> exists|q: int| 0 <= q < i + 1 && (#[trigger] labels@[q])@ == prefix@ + id by {
                    if l@ == prefix@ + id {
                        assert((prefix@ + id).subrange(0, prefix@.len() as int) =~= prefix@);
                    }
                };
            }
        }
        i = i + 1;
    }
    let r = crate::project::sorted_set(&v);
    proof {
        assert forall|id: Seq<char>| #[trigger] set_has(r@, id) <==> set_has(labels@, prefix@ + id) by {
            if set_has(labels@, prefix@ + id) {
                let q = choose|q: int| 0 <= q < labels@.len() && #[trigger] labels@[q]@ == prefix@ + id;
                assert(labels@[q]@ == prefix@ + id);
            }
        };
    }
    r
}

/// The ids of `a` that `b` also holds, sorted, each once.
fn common_ids(a: &Vec<String>, b: &Vec<String>) -> (r: Vec<String>)
    ensures
        strictly_sorted(r@),
        forall|id: Seq<char>| #[trigger] set_has(r@, id) <==> set_has(a@, id) && set_has(b@, id),
{
    let mut v: Vec<String> = Vec::new();
    let mut i: usize = 0;
    while i < a.len()
        invariant
            i <= a@.len(),
            forall|id: Seq<char>| #[trigger] strs(v@).contains(id) <==> exists|q: int| 0 <= q < i && (#[trigger] a@[q])@ == id && set_has(b@, id),
        decreases a.len() - i,
    {
        let ghost sv0 = strs(v@);
        if crate::keyed::contains_str(b, a[i].as_str()) {
            v.push(a[i].clone());
            proof {
                assert(strs(v@) =~= sv0.push(a@[i as int]@));
                assert forall|id: Seq<char>| #[trigger] strs(v@).contains(id) <==> exists|q: int| 0 <= q < i + 1 && (#[trigger] a@[q])@ == id && set_has(b@, id) by {
                    if strs(v@).contains(id) && id != a@[i as int]@ {
                        let j = choose|j: int| 0 <= j < strs(v@).len() && strs(v@)[j] == id;
                        assert(sv0[j] == id);
                    }
                    if id == a@[i as int]@ {
                        assert(strs(v@)[sv0.len() as int] == id);
                    }
                    if sv0.contains(id) {
                        let j = choose|j: int| 0 <= j < sv0.len() && sv0[j] == id;
                        assert(strs(v@)[j] == id);
                    }
                };
            }
        }
        i = i + 1;
    }
    let r = crate::project::sorted_set(&v);
    proof {
        assert forall|id: Seq<char>| #[trigger] set_has(r@, id) <==> set_has(a@, id) && set_has(b@, id) by {
            if set_has(a@, id) && set_has(b@, id) {
                let q = choose|q: int| 0 <= q < a@.len() && #[trigger] a@[q]@ == id;
                assert(a@[q]@ == id);
            }
        };
    }
    r
}

/// The graph a heterogeneous impact walks, and what it finds from artifact `a`:
/// `es` holds exactly the edges of `raw` by JSON text, sorted and each once; the
/// paths are the shortest walks to constraints, obligations and evidence; and the
/// obligations and evidence are the ones some walk reaches.
pub open spec fn impact_graph(raw: Seq<GraphEdge>, es: Seq<GraphEdge>, a: crate::project::ArtifactId, rep: HeterogeneousImpactReport) -> bool {
    let start = GraphNode::Artifact(a);
    &&& strictly_sorted(es)
    &&& forall|x: GraphEdge| #[trigger] es.contains(x) ==> raw.contains(x)
    &&& forall|x: GraphEdge| #[trigger] raw.contains(x) ==> has_key(es, edge_json(x))
    &&& forall|p: Seq<Seq<char>>| #[trigger] path_views(rep.paths@).contains(p) <==> reported(es, start, p)
    &&& forall|o: Seq<char>| #[trigger] set_has(rep.affected_obligations@, o) <==> reaches(es, start, "obligation:"@ + o)
    &&& forall|o: Seq<char>| #[trigger] set_has(rep.affected_evidence@, o) <==> reaches(es, start, "evidence:"@ + o)
}

/// The impact of a change to `path` over the combined dependency edges (the
/// model's, and those of scenarios, formal models, correspondences and native
/// tests), each `Requires` edge also read backwards: every shortest path to a
/// constraint, obligation or evidence, the reachable obligations and evidence,
/// and the reachable obligations that are scenario parents.
pub fn heterogeneous_impact_from(
    roots: &VerificationRoots,
    edges: Vec<GraphEdge>,
    parent_ids: &Vec<String>,
    relational_evidence: Vec<EvidenceView>,
    path: &str,
) -> (rep: HeterogeneousImpactReport)
    ensures
        same_roots(*roots, rep.roots),
        rep.subject@ == "artifact:"@ + impact_identity(*roots, path@),
        rep.relational_evidence@ == relational_evidence@,
        lex_sorted(path_views(rep.paths@)),
        strictly_sorted(rep.affected_obligations@),
        strictly_sorted(rep.affected_evidence@),
        strictly_sorted(rep.affected_parents@),
        forall|o: Seq<char>| #[trigger] set_has(rep.affected_parents@, o) <==> set_has(rep.affected_obligations@, o) && set_has(parent_ids@, o),
        exists|es: Seq<GraphEdge>, a: crate::project::ArtifactId| a.0@ == impact_identity(*roots, path@)
            && #[trigger] impact_graph(with_required_by(edges@), es, a, rep),
{
    let ghost e0 = edges@;
    let mut all = edges;
    add_required_by(&mut all);
    let ghost raw = all@;
    let es = crate::project::sort_edges(all);
    let normalized = if crate::text::starts_with(path, "spec:") {
        own(path)
    } else {
        roots.project_identity(path)
    };
    let a = crate::project::ArtifactId(normalized.clone());
    let ghost ga = a;
    let node = GraphNode::Artifact(a);
    let paths = crate::graph::paths_from_edges(&es, &node);
    let labels = crate::graph::reachable_labels(&es, &node);
    let affected_obligations = ids_with_prefix(&labels, "obligation:");
    let affected_evidence = ids_with_prefix(&labels, "evidence:");
    let affected_parents = common_ids(&affected_obligations, parent_ids);
    let rep = HeterogeneousImpactReport {
        roots: roots.view(),
        subject: cat("artifact:", normalized.as_str()),
        paths,
        affected_obligations,
        affected_evidence,
        affected_parents,
        relational_evidence,
    };
    proof {
        assert(ga.0@ == impact_identity(*roots, path@));
        assert(impact_graph(raw, es@, ga, rep));
    }
    rep
}

} // verus!
