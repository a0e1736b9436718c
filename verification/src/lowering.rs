//! Lowering ADRs and their effective specification into the project model, and the
//! relational proof obligation over a model.
use vstd::prelude::*;
use crate::adr::{Adr, Clause, SExpr, Status, strs};
use crate::effective::{EffectiveSpecification, known_id};
use crate::keyed::{Keyed, has_key, last_key, upsert_all, strictly_sorted};
use crate::project::{
    declarations_from, edge_json, edge_json_parts, intent_of, model_well_formed, Applicability, Artifact,
    ArtifactId, ConstraintId, Decision, DecisionId, GraphEdge, GraphNode, IntentConstraint, LinkKind,
    ProjectFact, ProjectModel, ProofObligationId, Provenance, ProvenanceKind, RelationalFormula,
};
use crate::text::{cat3, own, str_eq};

verus! {

// ---------------------------------------------------------------------------
// What the lowered model holds
// ---------------------------------------------------------------------------

/// The lower-case name of a status.
pub open spec fn status_name(s: Status) -> Seq<char> {
    match s {
        Status::Proposed => "proposed"@,
        Status::Accepted => "accepted"@,
        Status::Deprecated => "deprecated"@,
        Status::Superseded => "superseded"@,
    }
}

/// The file an ADR was read from: that of its first clause, or empty.
pub open spec fn adr_source(a: Adr) -> Seq<char> {
    if a.clauses@.len() > 0 {
        a.clauses@[0].span.filename@
    } else {
        Seq::empty()
    }
}

pub open spec fn human_provenance(p: Provenance, source: Seq<char>) -> bool {
    &&& p.kind == ProvenanceKind::HumanAuthored
    &&& p.source@ == source
    &&& p.span is None
    &&& p.extractor is None
}

pub open spec fn no_applicability(a: Applicability) -> bool {
    &&& a.scopes@.len() == 0
    &&& a.effective_since is None
    &&& a.effective_until is None
    &&& a.version is None
    &&& a.feature is None
    &&& a.target is None
    &&& a.jurisdiction is None
}

pub open spec fn decision_of(d: Decision, a: Adr) -> bool {
    &&& d.id.0@ == a.id@
    &&& d.status@ == status_name(a.status)
    &&& human_provenance(d.provenance, adr_source(a))
    &&& no_applicability(d.applicability)
}

pub open spec fn artifact_of(x: Artifact, a: Adr) -> bool {
    &&& x.id.0@ == adr_source(a)
    &&& x.kind@ == "adr_markdown"@
    &&& human_provenance(x.provenance, adr_source(a))
}

/// `ADR:clause`, the identifier of a clause's constraint.
pub open spec fn constraint_key(c: Clause) -> Seq<char> {
    c.adr_id@ + ":"@ + c.id@
}

pub open spec fn constraint_of(x: IntentConstraint, c: Clause) -> bool {
    &&& x.id.0@ == constraint_key(c)
    &&& x.decision.0@ == c.adr_id@
    &&& x.description@ == c.description@
    &&& x.formula@ == c.expression@
    &&& x.provenance.kind == ProvenanceKind::HumanAuthored
    &&& x.provenance.source@ == c.span.filename@
    &&& x.provenance.span == Some(c.span)
    &&& x.provenance.extractor is None
    &&& no_applicability(x.applicability)
}

/// No later ADR has the identifier of ADR `i`.
pub open spec fn last_adr(adrs: Seq<Adr>, i: int) -> bool {
    forall|j: int| i < j < adrs.len() ==> (#[trigger] adrs[j]).id@ != adrs[i].id@
}

/// No later clause has the constraint identifier of clause `i`.
pub open spec fn last_clause(cs: Seq<Clause>, i: int) -> bool {
    forall|j: int| i < j < cs.len() ==> constraint_key(#[trigger] cs[j]) != constraint_key(cs[i])
}

/// The key of the edge `Decision(from) -kind-> Decision(to)`.
pub open spec fn link_key(from: Seq<char>, kind: LinkKind, to: Seq<char>) -> Seq<char> {
    edge_json_parts("Decision"@, from, kind, "Decision"@, to)
}

pub open spec fn link_keys(from: Seq<char>, kind: LinkKind, targets: Seq<String>) -> Seq<Seq<char>> {
    targets.map_values(|t: String| link_key(from, kind, t@))
}

/// The edges an ADR contributes: what it supersedes, amends and is an exception to.
pub open spec fn adr_link_keys(a: Adr) -> Seq<Seq<char>> {
    link_keys(a.id@, LinkKind::Supersedes, a.supersedes@) + link_keys(a.id@, LinkKind::Amends, a.amends@)
        + link_keys(a.id@, LinkKind::ExceptionTo, a.exception_to@)
}

pub open spec fn adrs_link_keys(adrs: Seq<Adr>) -> Seq<Seq<char>>
    decreases adrs.len(),
{
    if adrs.len() == 0 {
        Seq::empty()
    } else {
        adrs_link_keys(adrs.drop_last()) + adr_link_keys(adrs.last())
    }
}

/// The edges a clause contributes: its ADR contains it, its file defines it.
pub open spec fn clause_keys(c: Clause) -> Seq<Seq<char>> {
    seq![
        edge_json_parts("Decision"@, c.adr_id@, LinkKind::Contains, "Constraint"@, constraint_key(c)),
        edge_json_parts("Artifact"@, c.span.filename@, LinkKind::Defines, "Constraint"@, constraint_key(c)),
    ]
}

pub open spec fn clauses_keys(cs: Seq<Clause>) -> Seq<Seq<char>>
    decreases cs.len(),
{
    if cs.len() == 0 {
        Seq::empty()
    } else {
        clauses_keys(cs.drop_last()) + clause_keys(cs.last())
    }
}

/// `m` is the model lowered from `adrs` and their effective specification `s`.
pub open spec fn lowered(adrs: Seq<Adr>, s: EffectiveSpecification, m: ProjectModel) -> bool {
    let cs = s.clauses@;
    let keys = adrs_link_keys(adrs) + clauses_keys(cs);
    &&& model_well_formed(m)
    &&& m.facts@.len() == 0
    &&& m.fact_coverage@.len() == 0
    &&& m.declarations@.len() == s.declarations@.len()
    &&& forall|i: int| 0 <= i < s.declarations@.len() ==> intent_of(s.declarations@[i]@, #[trigger] m.declarations@[i])
    &&& forall|k: Seq<char>| #[trigger] has_key(m.decisions@, k) <==> known_id(adrs, k)
    &&& forall|x: Decision| #[trigger] m.decisions@.contains(x) ==> exists|i: int|
        0 <= i < adrs.len() && last_adr(adrs, i) && decision_of(x, #[trigger] adrs[i])
    &&& forall|k: Seq<char>| #[trigger] has_key(m.artifacts@, k) <==> exists|i: int| 0 <= i < adrs.len() && adr_source(#[trigger] adrs[i]) == k
    &&& forall|x: Artifact| #[trigger] m.artifacts@.contains(x) ==> exists|i: int| 0 <= i < adrs.len() && artifact_of(x, #[trigger] adrs[i])
    &&& forall|k: Seq<char>| #[trigger] has_key(m.constraints@, k) <==> exists|i: int| 0 <= i < cs.len() && constraint_key(#[trigger] cs[i]) == k
    &&& forall|x: IntentConstraint| #[trigger] m.constraints@.contains(x) ==> exists|i: int|
        0 <= i < cs.len() && last_clause(cs, i) && constraint_of(x, #[trigger] cs[i])
    &&& forall|k: Seq<char>| #[trigger] has_key(m.edges@, k) <==> keys.contains(k)
}

// ---------------------------------------------------------------------------
// Building blocks
// ---------------------------------------------------------------------------

fn status_name_exec(s: Status) -> (r: String)
    ensures
        r@ == status_name(s),
{
    match s {
        Status::Proposed => own("proposed"),
        Status::Accepted => own("accepted"),
        Status::Deprecated => own("deprecated"),
        Status::Superseded => own("superseded"),
    }
}

fn adr_source_exec(a: &Adr) -> (r: String)
    ensures
        r@ == adr_source(*a),
{
    if a.clauses.len() > 0 {
        a.clauses[0].span.filename.clone()
    } else {
        String::new()
    }
}

fn human(source: String) -> (p: Provenance)
    ensures
        human_provenance(p, source@),
{
    Provenance { kind: ProvenanceKind::HumanAuthored, source, span: None, extractor: None }
}

fn decision_for(a: &Adr) -> (d: Decision)
    ensures
        decision_of(d, *a),
        d.key() == a.id@,
{
    Decision {
        id: DecisionId(a.id.clone()),
        status: status_name_exec(a.status),
        provenance: human(adr_source_exec(a)),
        applicability: Applicability::none(),
    }
}

fn artifact_for(a: &Adr) -> (x: Artifact)
    ensures
        artifact_of(x, *a),
        x.key() == adr_source(*a),
{
    let source = adr_source_exec(a);
    Artifact { id: ArtifactId(source.clone()), kind: own("adr_markdown"), provenance: human(source) }
}

fn constraint_id(c: &Clause) -> (r: String)
    ensures
        r@ == constraint_key(*c),
{
    cat3(c.adr_id.as_str(), ":", c.id.as_str())
}

fn constraint_for(c: &Clause) -> (x: IntentConstraint)
    ensures
        constraint_of(x, *c),
        x.key() == constraint_key(*c),
{
    IntentConstraint {
        id: ConstraintId(constraint_id(c)),
        decision: DecisionId(c.adr_id.clone()),
        description: c.description.clone(),
        formula: RelationalFormula::from_expr(&c.expression),
        provenance: Provenance {
            kind: ProvenanceKind::HumanAuthored,
            source: c.span.filename.clone(),
            span: Some(c.span.clone()),
            extractor: None,
        },
        applicability: Applicability::none(),
    }
}

pub open spec fn edge_keys(s: Seq<GraphEdge>) -> Seq<Seq<char>> {
    s.map_values(|e: GraphEdge| edge_json(e))
}

/// Appends `Decision(from) -kind-> Decision(t)` for each target `t`.
fn push_links(edges: &mut Vec<GraphEdge>, from: &String, kind: LinkKind, targets: &Vec<String>)
    ensures
        edge_keys(final(edges)@) == edge_keys(old(edges)@) + link_keys(from@, kind, targets@),
{
    let mut k: usize = 0;
    while k < targets.len()
        invariant
            k <= targets@.len(),
            edge_keys(edges@) == edge_keys(old(edges)@) + link_keys(from@, kind, targets@.take(k as int)),
        decreases targets.len() - k,
    {
        let ghost e0 = edges@;
        let e = GraphEdge {
            from: GraphNode::Decision(DecisionId(from.clone())),
            kind,
            to: GraphNode::Decision(DecisionId(targets[k].clone())),
        };
        proof {
            assert(edge_json(e) == link_key(from@, kind, targets@[k as int]@));
        }
        edges.push(e);
        proof {
            assert(edge_keys(edges@) =~= edge_keys(e0).push(edge_json(e)));
            assert(link_keys(from@, kind, targets@.take(k + 1)) =~= link_keys(from@, kind, targets@.take(k as int)).push(
                link_key(from@, kind, targets@[k as int]@),
            ));
        }
        k = k + 1;
    }
    proof {
        assert(targets@.take(targets@.len() as int) =~= targets@);
    }
}

// ---------------------------------------------------------------------------
// Lowering
// ---------------------------------------------------------------------------

/// Lowers the ADRs and their effective specification into the project model: one
/// decision per ADR identifier (the last ADR with it), one artifact per source file,
/// one constraint per clause identifier, the declarations, and the edges that link
/// them, each edge once.
pub fn lower_to_project_model(adrs: &Vec<Adr>, spec: &EffectiveSpecification) -> (m: ProjectModel)
    ensures
        lowered(adrs@, *spec, m),
{
    let mut model = ProjectModel::default();
    model.declarations = declarations_from(&spec.declarations);
    let mut decisions: Vec<Decision> = Vec::new();
    let mut artifacts: Vec<Artifact> = Vec::new();
    let mut edges: Vec<GraphEdge> = Vec::new();
    let mut i: usize = 0;
    while i < adrs.len()
        invariant
            i <= adrs@.len(),
            decisions@.len() == i,
            artifacts@.len() == i,
            forall|j: int| 0 <= j < i ==> decision_of(#[trigger] decisions@[j], adrs@[j]) && decisions@[j].key() == adrs@[j].id@,
            forall|j: int| 0 <= j < i ==> artifact_of(#[trigger] artifacts@[j], adrs@[j]) && artifacts@[j].key() == adr_source(adrs@[j]),
            edge_keys(edges@) == adrs_link_keys(adrs@.take(i as int)),
        decreases adrs.len() - i,
    {
        let a = &adrs[i];
        decisions.push(decision_for(a));
        artifacts.push(artifact_for(a));
        let ghost e0 = edges@;
        push_links(&mut edges, &a.id, LinkKind::Supersedes, &a.supersedes);
        push_links(&mut edges, &a.id, LinkKind::Amends, &a.amends);
        push_links(&mut edges, &a.id, LinkKind::ExceptionTo, &a.exception_to);
        proof {
            assert(adrs@.take(i + 1).drop_last() =~= adrs@.take(i as int));
            assert(adrs@.take(i + 1).last() == *a);
            assert(edge_keys(edges@) =~= edge_keys(e0) + adr_link_keys(*a));
        }
        i = i + 1;
    }
    proof {
        assert(adrs@.take(adrs@.len() as int) =~= adrs@);
    }
    let cs = &spec.clauses;
    let mut constraints: Vec<IntentConstraint> = Vec::new();
    let mut c: usize = 0;
    let ghost ek = edge_keys(edges@);
    while c < cs.len()
        invariant
            c <= cs@.len(),
            constraints@.len() == c,
            forall|j: int| 0 <= j < c ==> constraint_of(#[trigger] constraints@[j], cs@[j]) && constraints@[j].key() == constraint_key(cs@[j]),
            edge_keys(edges@) == ek + clauses_keys(cs@.take(c as int)),
        decreases cs.len() - c,
    {
        let cl = &cs[c];
        constraints.push(constraint_for(cl));
        let key = constraint_id(cl);
        let ghost e0 = edges@;
        let contains = GraphEdge {
            from: GraphNode::Decision(DecisionId(cl.adr_id.clone())),
            kind: LinkKind::Contains,
            to: GraphNode::Constraint(ConstraintId(key.clone())),
        };
        let defines = GraphEdge {
            from: GraphNode::Artifact(ArtifactId(cl.span.filename.clone())),
            kind: LinkKind::Defines,
            to: GraphNode::Constraint(ConstraintId(key)),
        };
        edges.push(contains);
        edges.push(defines);
        proof {
            assert(cs@.take(c + 1).drop_last() =~= cs@.take(c as int));
            assert(cs@.take(c + 1).last() == *cl);
            assert(edge_keys(edges@) =~= edge_keys(e0) + clause_keys(*cl));
        }
        c = c + 1;
    }
    proof {
        assert(cs@.take(cs@.len() as int) =~= cs@);
    }
    let ghost ds = decisions@;
    let ghost ars = artifacts@;
    let ghost css = constraints@;
    let ghost es = edges@;
    upsert_all(&mut model.decisions, decisions);
    upsert_all(&mut model.artifacts, artifacts);
    upsert_all(&mut model.constraints, constraints);
    upsert_all(&mut model.edges, edges);
    proof {
        let a = adrs@;
        let m = model;
        assert forall|k: Seq<char>| #[trigger] has_key(m.decisions@, k) <==> known_id(a, k) by {
            if has_key(ds, k) {
                let j = choose|j: int| 0 <= j < ds.len() && #[trigger] ds[j].key() == k;
                assert(a[j].id@ == k);
            }
            if known_id(a, k) {
                let j = choose|j: int| 0 <= j < a.len() && #[trigger] a[j].id@ == k;
                assert(ds[j].key() == k);
            }
        };
        assert forall|x: Decision| #[trigger] m.decisions@.contains(x) implies exists|i: int|
            0 <= i < a.len() && last_adr(a, i) && decision_of(x, #[trigger] a[i]) by {
            assert(ds.contains(x));
            let j = choose|j: int| 0 <= j < ds.len() && ds[j] == x;
            assert(has_key(ds, x.key()));
            let i = choose|i: int| 0 <= i < ds.len() && last_key(ds, i) && ds[i] == x;
            assert forall|j2: int| i < j2 < a.len() implies (#[trigger] a[j2]).id@ != a[i].id@ by {
                assert(ds[j2].key() != ds[i].key());
            };
        };
        assert forall|k: Seq<char>| #[trigger] has_key(m.artifacts@, k) <==> exists|i: int| 0 <= i < a.len() && adr_source(#[trigger] a[i]) == k by {
            if has_key(ars, k) {
                let j = choose|j: int| 0 <= j < ars.len() && #[trigger] ars[j].key() == k;
                assert(adr_source(a[j]) == k);
            }
            if exists|i: int| 0 <= i < a.len() && adr_source(#[trigger] a[i]) == k {
                let j = choose|j: int| 0 <= j < a.len() && adr_source(#[trigger] a[j]) == k;
                assert(ars[j].key() == k);
            }
        };
        assert forall|x: Artifact| #[trigger] m.artifacts@.contains(x) implies exists|i: int| 0 <= i < a.len() && artifact_of(x, #[trigger] a[i]) by {
            assert(ars.contains(x));
            let j = choose|j: int| 0 <= j < ars.len() && ars[j] == x;
            assert(artifact_of(x, a[j]));
        };
        let cq = spec.clauses@;
        assert forall|k: Seq<char>| #[trigger] has_key(m.constraints@, k) <==> exists|i: int| 0 <= i < cq.len() && constraint_key(#[trigger] cq[i]) == k by {
            if has_key(css, k) {
                let j = choose|j: int| 0 <= j < css.len() && #[trigger] css[j].key() == k;
                assert(constraint_key(cq[j]) == k);
            }
            if exists|i: int| 0 <= i < cq.len() && constraint_key(#[trigger] cq[i]) == k {
                let j = choose|j: int| 0 <= j < cq.len() && constraint_key(#[trigger] cq[j]) == k;
                assert(css[j].key() == k);
            }
        };
        assert forall|x: IntentConstraint| #[trigger] m.constraints@.contains(x) implies exists|i: int|
            0 <= i < cq.len() && last_clause(cq, i) && constraint_of(x, #[trigger] cq[i]) by {
            assert(css.contains(x));
            let j = choose|j: int| 0 <= j < css.len() && css[j] == x;
            assert(has_key(css, x.key()));
            let i = choose|i: int| 0 <= i < css.len() && last_key(css, i) && css[i] == x;
            assert forall|j2: int| i < j2 < cq.len() implies constraint_key(#[trigger] cq[j2]) != constraint_key(cq[i]) by {
                assert(css[j2].key() != css[i].key());
            };
        };
        let keys = adrs_link_keys(a) + clauses_keys(cq);
        assert(edge_keys(es) == keys);
        assert forall|k: Seq<char>| #[trigger] has_key(m.edges@, k) <==> keys.contains(k) by {
            if has_key(es, k) {
                let j = choose|j: int| 0 <= j < es.len() && #[trigger] es[j].key() == k;
                assert(keys[j] == k);
            }
            if keys.contains(k) {
                let j = choose|j: int| 0 <= j < keys.len() && keys[j] == k;
                assert(es[j].key() == k);
            }
        };
    }
    model
}


// ---------------------------------------------------------------------------
// The relational proof obligation
// ---------------------------------------------------------------------------

/// The model to be checked for consistency, under an obligation identifier.
#[derive(Debug)]
pub struct RelationalProofObligation {
    pub id: ProofObligationId,
    pub model: ProjectModel,
}

/// The identifier of the project consistency obligation.
pub open spec fn obligation_name() -> Seq<char> {
    "PO:project-consistency"@
}

/// A formula mentions a fact: some relation atom of it has the fact's relation and
/// arity, and each argument is a bound variable or the fact's argument there.
pub open spec fn references(f: SExpr, relation: Seq<char>, args: Seq<Seq<char>>, vars: Seq<Seq<char>>) -> bool
    decreases f,
{
    match f {
        SExpr::Call(name, a) => {
            &&& name == relation
            &&& a.len() == args.len()
            &&& forall|i: int| 0 <= i < a.len() ==> vars.contains(#[trigger] a[i]) || a[i] == args[i]
        },
        SExpr::Not(x) => references(*x, relation, args, vars),
        SExpr::And(a, b) => references(*a, relation, args, vars) || references(*b, relation, args, vars),
        SExpr::Or(a, b) => references(*a, relation, args, vars) || references(*b, relation, args, vars),
        SExpr::Implies(a, b) => references(*a, relation, args, vars) || references(*b, relation, args, vars),
        SExpr::Forall { var, guard, body, .. } => {
            ||| (guard matches Some(g) && references(*g, relation, args, vars.push(var)))
            ||| references(*body, relation, args, vars.push(var))
        },
        SExpr::Exists { var, guard, body, .. } => {
            ||| (guard matches Some(g) && references(*g, relation, args, vars.push(var)))
            ||| references(*body, relation, args, vars.push(var))
        },
        _ => false,
    }
}

pub open spec fn fact_referenced(c: IntentConstraint, f: ProjectFact) -> bool {
    references(c.formula@, f.relation@, strs(f.arguments@), Seq::empty())
}

pub open spec fn participates_key(c: IntentConstraint) -> Seq<char> {
    edge_json_parts("Constraint"@, c.id.0@, LinkKind::ParticipatesIn, "ProofObligation"@, obligation_name())
}

pub open spec fn relevant_key(f: ProjectFact, c: IntentConstraint) -> Seq<char> {
    edge_json_parts("Fact"@, f.id.0@, LinkKind::RelevantTo, "Constraint"@, c.id.0@)
}

fn contains_string(v: &Vec<String>, x: &String) -> (r: bool)
    ensures
        r == strs(v@).contains(x@),
{
    let mut i: usize = 0;
    while i < v.len()
        invariant
            i <= v@.len(),
            forall|j: int| 0 <= j < i ==> v@[j]@ != x@,
        decreases v.len() - i,
    {
        if str_eq(v[i].as_str(), x.as_str()) {
            proof {
                assert(strs(v@)[i as int] == x@);
            }
            return true;
        }
        i = i + 1;
    }
    proof {
        if strs(v@).contains(x@) {
            let j = choose|j: int| 0 <= j < strs(v@).len() && strs(v@)[j] == x@;
            assert(v@[j]@ == x@);
        }
    }
    false
}

fn references_exec(f: &RelationalFormula, fact: &ProjectFact, vars: &mut Vec<String>) -> (r: bool)
    ensures
        r == references(f@, fact.relation@, strs(fact.arguments@), strs(old(vars)@)),
        final(vars)@ == old(vars)@,
    decreases f,
{
    match f {
        RelationalFormula::Relation(name, a) => {
            if !str_eq(name.as_str(), fact.relation.as_str()) || a.len() != fact.arguments.len() {
                return false;
            }
            let mut i: usize = 0;
            while i < a.len()
                invariant
                    i <= a@.len(),
                    a@.len() == fact.arguments@.len(),
                    vars@ == old(vars)@,
                    f@ == SExpr::Call(name@, strs(a@)),
                    name@ == fact.relation@,
                    forall|j: int| 0 <= j < i ==> strs(vars@).contains(#[trigger] strs(a@)[j]) || strs(a@)[j] == strs(fact.arguments@)[j],
                decreases a.len() - i,
            {
                let bound = contains_string(vars, &a[i]);
                let same = str_eq(a[i].as_str(), fact.arguments[i].as_str());
                proof {
                    assert(strs(a@)[i as int] == a@[i as int]@);
                    assert(strs(fact.arguments@)[i as int] == fact.arguments@[i as int]@);
                }
                if !bound && !same {
                    return false;
                }
                i = i + 1;
            }
            true
        },
        RelationalFormula::Not(x) => references_exec(x, fact, vars),
        RelationalFormula::And(a, b) | RelationalFormula::Or(a, b) | RelationalFormula::Implies(a, b) => {
            references_exec(a, fact, vars) || references_exec(b, fact, vars)
        },
        RelationalFormula::Forall { variable, guard, body, .. } | RelationalFormula::Exists { variable, guard, body, .. } => {
            let ghost v0 = vars@;
            vars.push(variable.clone());
            proof {
                assert(strs(vars@) =~= strs(v0).push(variable@));
            }
            let g = match guard {
                Some(g) => references_exec(g, fact, vars),
                None => false,
            };
            let r = g || references_exec(body, fact, vars);
            vars.pop();
            proof {
                assert(vars@ =~= v0);
            }
            r
        },
        _ => false,
    }
}

/// Whether constraint `c`'s formula mentions `fact`.
fn formula_references_fact(formula: &RelationalFormula, fact: &ProjectFact) -> (r: bool)
    ensures
        r == references(formula@, fact.relation@, strs(fact.arguments@), Seq::empty()),
{
    let mut vars: Vec<String> = Vec::new();
    proof {
        assert(strs(vars@) =~= Seq::<Seq<char>>::empty());
    }
    references_exec(formula, fact, &mut vars)
}

/// `r` is the consistency obligation over `model`: the model with its edges as a
/// set, plus an edge from each constraint to the obligation and from each fact to
/// each constraint whose formula mentions it.
pub open spec fn is_obligation_of(model: ProjectModel, r: RelationalProofObligation) -> bool {
    &&& r.id.0@ == obligation_name()
    &&& r.model.artifacts == model.artifacts
    &&& r.model.decisions == model.decisions
    &&& r.model.constraints == model.constraints
    &&& r.model.facts == model.facts
    &&& r.model.declarations == model.declarations
    &&& r.model.fact_coverage == model.fact_coverage
    &&& strictly_sorted(r.model.edges@)
    &&& forall|k: Seq<char>| #[trigger] has_key(r.model.edges@, k) <==> {
        ||| exists|x: GraphEdge| #[trigger] model.edges@.contains(x) && edge_json(x) == k
        ||| exists|i: int| 0 <= i < model.constraints@.len() && k == participates_key(#[trigger] model.constraints@[i])
        ||| exists|i: int, j: int|
            #![trigger model.facts@[i], model.constraints@[j]]
            0 <= i < model.facts@.len() && 0 <= j < model.constraints@.len()
                && fact_referenced(model.constraints@[j], model.facts@[i])
                && k == relevant_key(model.facts@[i], model.constraints@[j])
    }
}

/// The consistency obligation over a model: every constraint participates in it,
/// and every fact that a constraint's formula mentions is linked to that constraint.
pub fn relational_obligation(model: ProjectModel) -> (r: RelationalProofObligation)
    ensures
        is_obligation_of(model, r),
{
    let ghost m0 = model;
    let mut model = model;
    let name = own("PO:project-consistency");
    model.normalize();
    proof {
        assert forall|k: Seq<char>| #[trigger] has_key(model.edges@, k) <==> exists|x: GraphEdge| #[trigger] m0.edges@.contains(x) && edge_json(x) == k by {
            if has_key(model.edges@, k) {
                let j = choose|j: int| 0 <= j < model.edges@.len() && #[trigger] model.edges@[j].key() == k;
                assert(model.edges@.contains(model.edges@[j]));
                assert(m0.edges@.contains(model.edges@[j]));
            }
        };
    }
    let ghost old_keys = |k: Seq<char>| exists|x: GraphEdge| #[trigger] m0.edges@.contains(x) && edge_json(x) == k;
    let n = model.constraints.len();
    let mut i: usize = 0;
    while i < n
        invariant
            n == m0.constraints@.len(),
            i <= n,
            name@ == obligation_name(),
            strictly_sorted(model.edges@),
            model.artifacts == m0.artifacts,
            model.decisions == m0.decisions,
            model.constraints == m0.constraints,
            model.facts == m0.facts,
            model.declarations == m0.declarations,
            model.fact_coverage == m0.fact_coverage,
            forall|k: Seq<char>| #[trigger] has_key(model.edges@, k) <==> (old_keys(k) || exists|q: int|
                0 <= q < i && k == participates_key(#[trigger] m0.constraints@[q])),
        decreases n - i,
    {
        let e = GraphEdge {
            from: GraphNode::Constraint(model.constraints[i].id.clone()),
            kind: LinkKind::ParticipatesIn,
            to: GraphNode::ProofObligation(ProofObligationId(name.clone())),
        };
        proof {
            assert(edge_json(e) == participates_key(m0.constraints@[i as int]));
        }
        let ghost before = model.edges@;
        model.add_edge(e);
        proof {
            assert forall|k: Seq<char>| #[trigger] has_key(model.edges@, k) <==> (old_keys(k) || exists|q: int|
                0 <= q < i + 1 && k == participates_key(#[trigger] m0.constraints@[q])) by {
                assert(has_key(before, k) <==> (old_keys(k) || exists|q: int| 0 <= q < i && k == participates_key(#[trigger] m0.constraints@[q])));
                if exists|q: int| 0 <= q < i + 1 && k == participates_key(#[trigger] m0.constraints@[q]) {
                    let q = choose|q: int| 0 <= q < i + 1 && k == participates_key(#[trigger] m0.constraints@[q]);
                    if q < i {
                        assert(exists|q2: int| 0 <= q2 < i && k == participates_key(#[trigger] m0.constraints@[q2]));
                    }
                }
            };
        }
        i = i + 1;
    }
    let ghost base = |k: Seq<char>| old_keys(k) || exists|q: int| 0 <= q < n && k == participates_key(#[trigger] m0.constraints@[q]);
    let nf = model.facts.len();
    let mut f: usize = 0;
    while f < nf
        invariant
            n == m0.constraints@.len(),
            nf == m0.facts@.len(),
            f <= nf,
            strictly_sorted(model.edges@),
            model.artifacts == m0.artifacts,
            model.decisions == m0.decisions,
            model.constraints == m0.constraints,
            model.facts == m0.facts,
            model.declarations == m0.declarations,
            model.fact_coverage == m0.fact_coverage,
            forall|k: Seq<char>| #[trigger] has_key(model.edges@, k) <==> (base(k) || exists|p: int, q: int|
                #![trigger m0.facts@[p], m0.constraints@[q]]
                0 <= p < f && 0 <= q < n && fact_referenced(m0.constraints@[q], m0.facts@[p])
                    && k == relevant_key(m0.facts@[p], m0.constraints@[q])),
        decreases nf - f,
    {
        let mut c: usize = 0;
        while c < n
            invariant
                n == m0.constraints@.len(),
                nf == m0.facts@.len(),
                f < nf,
                c <= n,
                strictly_sorted(model.edges@),
                model.artifacts == m0.artifacts,
                model.decisions == m0.decisions,
                model.constraints == m0.constraints,
                model.facts == m0.facts,
                model.declarations == m0.declarations,
                model.fact_coverage == m0.fact_coverage,
                forall|k: Seq<char>| #[trigger] has_key(model.edges@, k) <==> (base(k) || exists|p: int, q: int|
                    #![trigger m0.facts@[p], m0.constraints@[q]]
                    0 <= q < n && fact_referenced(m0.constraints@[q], m0.facts@[p])
                        && k == relevant_key(m0.facts@[p], m0.constraints@[q])
                        && ((0 <= p < f) || (p == f && q < c))),
            decreases n - c,
        {
            let hit = formula_references_fact(&model.constraints[c].formula, &model.facts[f]);
            let ghost before = model.edges@;
            if hit {
                let e = GraphEdge {
                    from: GraphNode::Fact(model.facts[f].id.clone()),
                    kind: LinkKind::RelevantTo,
                    to: GraphNode::Constraint(model.constraints[c].id.clone()),
                };
                proof {
                    assert(edge_json(e) == relevant_key(m0.facts@[f as int], m0.constraints@[c as int]));
                }
                model.add_edge(e);
            }
            proof {
                assert forall|k: Seq<char>| #[trigger] has_key(model.edges@, k) <==> (base(k) || exists|p: int, q: int|
                    #![trigger m0.facts@[p], m0.constraints@[q]]
                    0 <= q < n && fact_referenced(m0.constraints@[q], m0.facts@[p])
                        && k == relevant_key(m0.facts@[p], m0.constraints@[q])
                        && ((0 <= p < f) || (p == f && q < c + 1))) by {
                    assert(has_key(before, k) <==> (base(k) || exists|p: int, q: int|
                        #![trigger m0.facts@[p], m0.constraints@[q]]
                        0 <= q < n && fact_referenced(m0.constraints@[q], m0.facts@[p])
                            && k == relevant_key(m0.facts@[p], m0.constraints@[q])
                            && ((0 <= p < f) || (p == f && q < c))));
                    if hit {
                        assert(fact_referenced(m0.constraints@[c as int], m0.facts@[f as int]));
                    }
                };
            }
            c = c + 1;
        }
        proof {
            assert forall|k: Seq<char>| #[trigger] has_key(model.edges@, k) <==> (base(k) || exists|p: int, q: int|
                #![trigger m0.facts@[p], m0.constraints@[q]]
                0 <= p < f + 1 && 0 <= q < n && fact_referenced(m0.constraints@[q], m0.facts@[p])
                    && k == relevant_key(m0.facts@[p], m0.constraints@[q])) by {
                assert(has_key(model.edges@, k) <==> (base(k) || exists|p: int, q: int|
                    #![trigger m0.facts@[p], m0.constraints@[q]]
                    0 <= q < n && fact_referenced(m0.constraints@[q], m0.facts@[p])
                        && k == relevant_key(m0.facts@[p], m0.constraints@[q])
                        && ((0 <= p < f) || (p == f && q < n))));
            };
        }
        f = f + 1;
    }
    RelationalProofObligation { id: ProofObligationId(name), model }
}

} // verus!
