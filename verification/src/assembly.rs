//! The whole model of a project: the effective specification lowered, the facts of
//! the Cargo workspace merged in, the closed-world absences derived, and the list of
//! inputs the result depends on.
use vstd::prelude::*;
use crate::adr::{Adr, strs};
use crate::cargo::{CargoFacts, CargoMetadata};
use crate::effective::{EffectiveSpecification, all_refs_resolved, effective_of, gathered_clauses, gathered_decls, is_activation_order, views_typed};
use crate::keyed::{Keyed, has_key, strictly_sorted, upsert};
use crate::loading::{
    absences_of, dependency_facts_binary, dependency_world_closed, enriched, generically_closed, members_sorted, namespaced,
};
use crate::project::{Artifact, GraphEdge, ProjectFact, ProjectModel, added_facts, produces_key};
use crate::roots::{SemanticInput, VerificationRoots, identity_of};
use crate::text::{seq_le, seq_lt, str_lt};

verus! {

// ---------------------------------------------------------------------------
// The inputs a result depends on
// ---------------------------------------------------------------------------

/// Every input of `r` is one of the candidates.
#[verifier::opaque]
pub open spec fn from_candidates(cands: Seq<(Seq<char>, Seq<char>)>, r: Seq<SemanticInput>) -> bool {
    forall|x: SemanticInput| #[trigger] r.contains(x) ==> cands.contains((x.identity@, x.path@))
}

/// Every candidate has an input with its identity and a path no greater.
#[verifier::opaque]
pub open spec fn covers_candidates(cands: Seq<(Seq<char>, Seq<char>)>, r: Seq<SemanticInput>) -> bool {
    forall|c: (Seq<char>, Seq<char>)| #[trigger] cands.contains(c) ==> exists|x: SemanticInput|
        #[trigger] r.contains(x) && x.identity@ == c.0 && seq_le(x.path@, c.1)
}

/// `r` holds one input per identity among the candidates (identity, path), in
/// identity order, each with the least path the candidates give that identity.
pub open spec fn inputs_of(cands: Seq<(Seq<char>, Seq<char>)>, r: Seq<SemanticInput>) -> bool {
    &&& strictly_sorted(r)
    &&& from_candidates(cands, r)
    &&& covers_candidates(cands, r)
}

/// The candidate inputs of the specification: the file of every clause.
pub open spec fn spec_candidates(roots: VerificationRoots, s: EffectiveSpecification) -> Seq<(Seq<char>, Seq<char>)> {
    s.clauses@.map_values(|c: crate::adr::Clause| (identity_of("spec"@, roots.specification_root@, c.span.filename@), c.span.filename@))
}

/// The candidate inputs of the workspace: every file Cargo facts were read from.
pub open spec fn cargo_candidates(roots: VerificationRoots, c: CargoFacts) -> Seq<(Seq<char>, Seq<char>)> {
    c.input_files@.map_values(|p: String| (identity_of("project"@, roots.project_root@, p@), p@))
}

proof fn lemma_le_of_lt(a: Seq<char>, b: Seq<char>, c: Seq<char>)
    requires
        seq_lt(a, b),
        seq_le(b, c),
    ensures
        seq_le(a, c),
{
    if b != c {
        crate::text::lemma_lt_transitive(a, b, c);
    }
}

proof fn lemma_push_contains(cands: Seq<(Seq<char>, Seq<char>)>, n: (Seq<char>, Seq<char>), c: (Seq<char>, Seq<char>))
    ensures
        cands.push(n).contains(c) <==> (cands.contains(c) || c == n),
{
    let c1 = cands.push(n);
    if cands.contains(c) {
        let k = choose|k: int| 0 <= k < cands.len() && cands[k] == c;
        assert(c1[k] == c);
    }
    if c == n {
        assert(c1[cands.len() as int] == n);
    }
    if c1.contains(c) && c != n {
        let k = choose|k: int| 0 <= k < c1.len() && c1[k] == c;
        assert(cands[k] == c);
    }
}

proof fn lemma_replace(o0: Seq<SemanticInput>, i: int, x: SemanticInput, cands: Seq<(Seq<char>, Seq<char>)>)
    requires
        inputs_of(cands, o0),
        0 <= i < o0.len(),
        o0[i].identity@ == x.identity@,
        seq_lt(x.path@, o0[i].path@),
    ensures
        inputs_of(cands.push((x.identity@, x.path@)), o0.update(i, x)),
{
    let o1 = o0.update(i, x);
    let n = (x.identity@, x.path@);
    let c1 = cands.push(n);
    assert forall|a: int, b: int| 0 <= a < b < o1.len() implies seq_lt(#[trigger] o1[a].key(), #[trigger] o1[b].key()) by {
        assert(o0[a].key() == o1[a].key());
        assert(o0[b].key() == o1[b].key());
    };
    assert forall|y: SemanticInput| #[trigger] o1.contains(y) implies c1.contains((y.identity@, y.path@)) by {
        reveal(from_candidates);
        let k = choose|k: int| 0 <= k < o1.len() && o1[k] == y;
        lemma_push_contains(cands, n, (y.identity@, y.path@));
        if k != i {
            assert(o0[k] == y);
            assert(o0.contains(y));
        }
    };
    assert(o1[i] == x);
    assert(o1.contains(x));
    assert forall|c: (Seq<char>, Seq<char>)| #[trigger] c1.contains(c) implies exists|y: SemanticInput|
        #[trigger] o1.contains(y) && y.identity@ == c.0 && seq_le(y.path@, c.1) by {
        reveal(covers_candidates);
        lemma_push_contains(cands, n, c);
        if c == n {
            assert(seq_le(x.path@, c.1));
        } else {
            let y = choose|y: SemanticInput| #[trigger] o0.contains(y) && y.identity@ == c.0 && seq_le(y.path@, c.1);
            let q = choose|q: int| 0 <= q < o0.len() && o0[q] == y;
            if q == i {
                lemma_le_of_lt(x.path@, o0[i].path@, c.1);
            } else {
                assert(o1[q] == y);
                assert(o1.contains(y));
            }
        }
    };
    assert(from_candidates(c1, o1)) by { reveal(from_candidates); };
    assert(covers_candidates(c1, o1)) by { reveal(covers_candidates); };
}

proof fn lemma_keep(o0: Seq<SemanticInput>, i: int, n: (Seq<char>, Seq<char>), cands: Seq<(Seq<char>, Seq<char>)>)
    requires
        inputs_of(cands, o0),
        0 <= i < o0.len(),
        o0[i].identity@ == n.0,
        !seq_lt(n.1, o0[i].path@),
    ensures
        inputs_of(cands.push(n), o0),
{
    let c1 = cands.push(n);
    assert forall|y: SemanticInput| #[trigger] o0.contains(y) implies c1.contains((y.identity@, y.path@)) by {
        reveal(from_candidates);
        lemma_push_contains(cands, n, (y.identity@, y.path@));
    };
    assert(o0.contains(o0[i]));
    assert forall|c: (Seq<char>, Seq<char>)| #[trigger] c1.contains(c) implies exists|y: SemanticInput|
        #[trigger] o0.contains(y) && y.identity@ == c.0 && seq_le(y.path@, c.1) by {
        reveal(covers_candidates);
        lemma_push_contains(cands, n, c);
        if c == n {
            lemma_not_lt(n.1, o0[i].path@);
            assert(o0.contains(o0[i]) && o0[i].identity@ == c.0 && seq_le(o0[i].path@, c.1));
        }
    };
    assert(from_candidates(c1, o0)) by { reveal(from_candidates); };
    assert(covers_candidates(c1, o0)) by { reveal(covers_candidates); };
}

proof fn lemma_not_lt(a: Seq<char>, b: Seq<char>)
    requires
        !seq_lt(a, b),
    ensures
        seq_le(b, a),
{
    crate::text::lemma_lt_total(a, b);
}

proof fn lemma_insert(o0: Seq<SemanticInput>, o1: Seq<SemanticInput>, x: SemanticInput, cands: Seq<(Seq<char>, Seq<char>)>)
    requires
        inputs_of(cands, o0),
        !has_key(o0, x.key()),
        strictly_sorted(o1),
        o1.contains(x),
        forall|y: SemanticInput| #[trigger] o1.contains(y) ==> y == x || o0.contains(y),
        forall|y: SemanticInput| #[trigger] o0.contains(y) && y.key() != x.key() ==> o1.contains(y),
    ensures
        inputs_of(cands.push((x.identity@, x.path@)), o1),
{
    let n = (x.identity@, x.path@);
    let c1 = cands.push(n);
    assert forall|y: SemanticInput| #[trigger] o1.contains(y) implies c1.contains((y.identity@, y.path@)) by {
        reveal(from_candidates);
        lemma_push_contains(cands, n, (y.identity@, y.path@));
    };
    assert forall|c: (Seq<char>, Seq<char>)| #[trigger] c1.contains(c) implies exists|y: SemanticInput|
        #[trigger] o1.contains(y) && y.identity@ == c.0 && seq_le(y.path@, c.1) by {
        reveal(covers_candidates);
        lemma_push_contains(cands, n, c);
        if c == n {
            assert(seq_le(x.path@, c.1));
        } else {
            let y = choose|y: SemanticInput| #[trigger] o0.contains(y) && y.identity@ == c.0 && seq_le(y.path@, c.1);
            let q = choose|q: int| 0 <= q < o0.len() && o0[q] == y;
            assert(o0[q].key() == y.key());
            assert(y.key() != x.key());
            assert(o1.contains(y));
        }
    };
    assert(from_candidates(c1, o1)) by { reveal(from_candidates); };
    assert(covers_candidates(c1, o1)) by { reveal(covers_candidates); };
}

/// Adds the candidate (identity, path) to `out`, keeping the least path per identity.
fn add_input(out: &mut Vec<SemanticInput>, identity: String, path: String, Ghost(cands): Ghost<Seq<(Seq<char>, Seq<char>)>>)
    requires
        inputs_of(cands, old(out)@),
    ensures
        inputs_of(cands.push((identity@, path@)), final(out)@),
{
    let ghost o0 = out@;
    let ghost n = (identity@, path@);
    match crate::keyed::find_key(out, identity.as_str()) {
        Some(i) => {
            if str_lt(path.as_str(), out[i].path.as_str()) {
                let x = SemanticInput { identity, path };
                proof {
                    lemma_replace(o0, i as int, x, cands);
                }
                out.set(i, x);
            } else {
                proof {
                    lemma_keep(o0, i as int, n, cands);
                }
            }
        },
        None => {
            let x = SemanticInput { identity, path };
            upsert(out, x);
            proof {
                lemma_insert(o0, out@, x, cands);
            }
        },
    }
}

// ---------------------------------------------------------------------------
// Merging the workspace's facts
// ---------------------------------------------------------------------------

/// `cm` is the model of the workspace's artifacts and facts alone (each fact with
/// the edge from the artifact it was read from), before its sources are namespaced.
pub open spec fn cargo_base(artifacts: Seq<Artifact>, facts: Seq<ProjectFact>, cm: ProjectModel) -> bool {
    &&& cm.decisions@.len() == 0
    &&& cm.constraints@.len() == 0
    &&& cm.declarations@.len() == 0
    &&& cm.fact_coverage@.len() == 0
    &&& strictly_sorted(cm.artifacts@)
    &&& forall|k: Seq<char>| #[trigger] has_key(cm.artifacts@, k) <==> has_key(artifacts, k)
    &&& forall|x: Artifact| #[trigger] cm.artifacts@.contains(x) ==> artifacts.contains(x)
    &&& strictly_sorted(cm.facts@)
    &&& strictly_sorted(cm.edges@)
    &&& forall|k: Seq<char>| #[trigger] has_key(cm.facts@, k) <==> has_key(facts, k)
    &&& forall|x: ProjectFact| #[trigger] cm.facts@.contains(x) ==> facts.contains(x)
    &&& forall|i: int| 0 <= i < facts.len() && crate::project::is_last_id(facts, i) ==> cm.facts@.contains(#[trigger] facts[i])
    &&& forall|k: Seq<char>| #[trigger] has_key(cm.edges@, k) <==> exists|i: int| 0 <= i < facts.len() && k == produces_key(#[trigger] facts[i])
}

/// `new` is `m` with the coverage claims, artifacts, facts and edges of `cm` added;
/// an artifact or fact of `cm` replaces one of `m` with the same identifier.
pub open spec fn merged(m: ProjectModel, cm: ProjectModel, coverage: Seq<crate::project::FactCoverage>, new: ProjectModel) -> bool {
    &&& new.fact_coverage@ == m.fact_coverage@ + coverage
    &&& strictly_sorted(new.artifacts@)
    &&& forall|k: Seq<char>| #[trigger] has_key(new.artifacts@, k) <==> (has_key(m.artifacts@, k) || has_key(cm.artifacts@, k))
    &&& forall|x: Artifact| #[trigger] new.artifacts@.contains(x) ==> cm.artifacts@.contains(x)
        || (m.artifacts@.contains(x) && !has_key(cm.artifacts@, x.key()))
    &&& strictly_sorted(new.facts@)
    &&& forall|k: Seq<char>| #[trigger] has_key(new.facts@, k) <==> (has_key(m.facts@, k) || has_key(cm.facts@, k))
    &&& forall|x: ProjectFact| #[trigger] new.facts@.contains(x) ==> cm.facts@.contains(x)
        || (m.facts@.contains(x) && !has_key(cm.facts@, x.key()))
    &&& strictly_sorted(new.edges@)
    &&& forall|k: Seq<char>| #[trigger] has_key(new.edges@, k) <==> (has_key(m.edges@, k) || has_key(cm.edges@, k))
    &&& new.decisions == m.decisions
    &&& new.constraints == m.constraints
    &&& new.declarations == m.declarations
}

/// The workspace model for `c`: its base with every source namespaced `project:`.
pub open spec fn cargo_model(c: CargoFacts, root: Seq<char>, cm: ProjectModel) -> bool {
    exists|cb: ProjectModel| #[trigger] cargo_base(c.artifacts@, c.facts@, cb) && namespaced(cb, cm, "project"@, root)
}

fn base_model(artifacts: Vec<Artifact>, facts: Vec<ProjectFact>) -> (cm: ProjectModel)
    ensures
        cargo_base(artifacts@, facts@, cm),
{
    let mut cm = ProjectModel::default();
    let ghost m0 = cm;
    let ghost av = artifacts@;
    let ghost fv = facts@;
    crate::keyed::upsert_all(&mut cm.artifacts, artifacts);
    proof {
        assert forall|x: Artifact| #[trigger] cm.artifacts@.contains(x) implies av.contains(x) by {
            if !av.contains(x) {
                assert(m0.artifacts@.contains(x));
            }
        };
    }
    let ghost m1 = cm;
    cm.add_facts(facts);
    proof {
        assert forall|k: Seq<char>| #[trigger] has_key(cm.edges@, k) <==> exists|i: int| 0 <= i < fv.len() && k == produces_key(#[trigger] fv[i]) by {
            assert(!has_key(m1.edges@, k));
        };
        assert forall|k: Seq<char>| #[trigger] has_key(cm.facts@, k) <==> has_key(fv, k) by {
            assert(!has_key(m1.facts@, k));
        };
        assert forall|x: ProjectFact| #[trigger] cm.facts@.contains(x) implies fv.contains(x) by {
            assert(!m1.facts@.contains(x));
        };
    }
    cm
}

proof fn lemma_has_key_append<T: Keyed>(a: Seq<T>, b: Seq<T>, k: Seq<char>)
    ensures
        has_key(a + b, k) <==> (has_key(a, k) || has_key(b, k)),
{
    let s = a + b;
    if has_key(s, k) {
        let i = choose|i: int| 0 <= i < s.len() && #[trigger] s[i].key() == k;
        if i < a.len() {
            assert(a[i].key() == k);
        } else {
            assert(b[i - a.len()].key() == k);
        }
    }
    if has_key(a, k) {
        let i = choose|i: int| 0 <= i < a.len() && #[trigger] a[i].key() == k;
        assert(s[i].key() == k);
    }
    if has_key(b, k) {
        let i = choose|i: int| 0 <= i < b.len() && #[trigger] b[i].key() == k;
        assert(s[i + a.len()].key() == k);
    }
}

/// Adds the coverage claims, artifacts, facts and edges of `cm` to `model`.
fn merge_into(model: &mut ProjectModel, cm: ProjectModel, coverage: Vec<crate::project::FactCoverage>)
    requires
        strictly_sorted(old(model).artifacts@),
        strictly_sorted(old(model).facts@),
    ensures
        merged(*old(model), cm, coverage@, *final(model)),
{
    let ghost m0 = *model;
    let ghost cmv = cm;
    let mut coverage = coverage;
    model.fact_coverage.append(&mut coverage);
    let ProjectModel { artifacts, facts, mut edges, .. } = cm;
    crate::keyed::upsert_all(&mut model.artifacts, artifacts);
    crate::keyed::upsert_all(&mut model.facts, facts);
    model.edges.append(&mut edges);
    let ghost m1 = *model;
    model.normalize();
    proof {
        assert(m1.edges@ == m0.edges@ + cmv.edges@);
        assert forall|k: Seq<char>| #[trigger] has_key(model.edges@, k) <==> (has_key(m0.edges@, k) || has_key(cmv.edges@, k)) by {
            lemma_has_key_append(m0.edges@, cmv.edges@, k);
            if has_key(model.edges@, k) {
                let i = choose|i: int| 0 <= i < model.edges@.len() && #[trigger] model.edges@[i].key() == k;
                assert(model.edges@.contains(model.edges@[i]));
                let j = choose|j: int| 0 <= j < m1.edges@.len() && m1.edges@[j] == model.edges@[i];
                assert(m1.edges@[j].key() == k);
            }
            if has_key(m1.edges@, k) {
                let j = choose|j: int| 0 <= j < m1.edges@.len() && #[trigger] m1.edges@[j].key() == k;
                assert(m1.edges@.contains(m1.edges@[j]));
            }
        };
    }
}

// ---------------------------------------------------------------------------
// The stages of assembly
// ---------------------------------------------------------------------------

/// `new` is `old` with its edges ordered and each kept once.
pub open spec fn edges_normalized(old: ProjectModel, new: ProjectModel) -> bool {
    &&& strictly_sorted(new.edges@)
    &&& forall|k: Seq<char>| #[trigger] has_key(new.edges@, k) <==> has_key(old.edges@, k)
    &&& new.artifacts == old.artifacts
    &&& new.decisions == old.decisions
    &&& new.constraints == old.constraints
    &&& new.facts == old.facts
    &&& new.declarations == old.declarations
    &&& new.fact_coverage == old.fact_coverage
}

/// `new` is `old` with the `Package` entity type enriched from the facts.
pub open spec fn package_enriched(old: ProjectModel, new: ProjectModel) -> bool {
    &&& enriched(old.declarations@, new.declarations@, old.facts@)
    &&& new.facts == old.facts
    &&& new.artifacts == old.artifacts
    &&& new.decisions == old.decisions
    &&& new.constraints == old.constraints
    &&& new.fact_coverage == old.fact_coverage
    &&& new.edges == old.edges
}

/// `new` is `old` with, under a closed claim for dependency declarations, the
/// absent declarations added.
pub open spec fn dependencies_closed(old: ProjectModel, new: ProjectModel) -> bool {
    &&& !dependency_world_closed(old) ==> new == old
    &&& dependency_world_closed(old) ==> exists|absent: Seq<ProjectFact>| absences_of(old, absent)
        && #[trigger] added_facts(old, new, absent)
}

/// `new` is `m` with the workspace facts `c` merged in, the `Package` entity type
/// enriched, and the absent dependency declarations derived.
pub open spec fn with_workspace(m: ProjectModel, c: CargoFacts, root: Seq<char>, new: ProjectModel) -> bool {
    exists|cm: ProjectModel, mm: ProjectModel, me: ProjectModel|
        #[trigger] cargo_model(c, root, cm) && #[trigger] merged(m, cm, c.coverage@, mm) && #[trigger] package_enriched(mm, me)
            && dependencies_closed(me, new)
}

/// `m` and `inputs` are what assembly gives for the ADRs and, where there is one,
/// the workspace (its metadata and manifest texts).
pub open spec fn assembled(
    roots: VerificationRoots,
    adrs: Seq<Adr>,
    cargo: Option<(CargoMetadata, Vec<(String, String)>)>,
    m: ProjectModel,
    inputs: Seq<SemanticInput>,
) -> bool {
    exists|s: EffectiveSpecification, m1: ProjectModel, m2: ProjectModel, m3: ProjectModel| {
        &&& #[trigger] effective_of(adrs, false, s)
        &&& #[trigger] crate::lowering::lowered(adrs, s, m1)
        &&& #[trigger] namespaced(m1, m2, "spec"@, roots.specification_root@)
        &&& match cargo {
            None => edges_normalized(m2, m3) && inputs_of(spec_candidates(roots, s), inputs),
            Some((meta, texts)) => exists|c: CargoFacts| #[trigger] crate::cargo::extracted_from(meta, texts@, c)
                && with_workspace(m2, c, roots.project_root@, m3)
                && inputs_of(spec_candidates(roots, s) + cargo_candidates(roots, c), inputs),
        }
        &&& #[trigger] generically_closed(m3, m)
    }
}

proof fn lemma_lowered_members_sorted(adrs: Seq<Adr>, s: EffectiveSpecification, m: ProjectModel)
    requires
        crate::lowering::lowered(adrs, s, m),
    ensures
        members_sorted(m.declarations@),
{
    assert forall|i: int| 0 <= i < m.declarations@.len() implies (#[trigger] m.declarations@[i] matches crate::project::IntentDeclaration::EntityType { members, .. } ==> strictly_sorted(members@)) by {
        assert(crate::project::intent_of(s.declarations@[i]@, m.declarations@[i]));
    };
}

proof fn lemma_namespaced_constraints_sorted(m1: ProjectModel, m2: ProjectModel, ns: Seq<char>, root: Seq<char>)
    requires
        namespaced(m1, m2, ns, root),
        strictly_sorted(m1.constraints@),
    ensures
        strictly_sorted(m2.constraints@),
{
    assert forall|a: int, b: int| 0 <= a < b < m2.constraints@.len() implies crate::text::seq_lt(#[trigger] m2.constraints@[a].key(), #[trigger] m2.constraints@[b].key()) by {
        assert(m1.constraints@[a].id == m2.constraints@[a].id);
        assert(m1.constraints@[b].id == m2.constraints@[b].id);
        assert(crate::text::seq_lt(m1.constraints@[a].key(), m1.constraints@[b].key()));
    };
}

proof fn lemma_namespaced_facts_sorted(m1: ProjectModel, m2: ProjectModel, ns: Seq<char>, root: Seq<char>)
    requires
        namespaced(m1, m2, ns, root),
        strictly_sorted(m1.facts@),
    ensures
        strictly_sorted(m2.facts@),
{
    assert forall|a: int, b: int| 0 <= a < b < m2.facts@.len() implies crate::text::seq_lt(#[trigger] m2.facts@[a].key(), #[trigger] m2.facts@[b].key()) by {
        assert(m1.facts@[a].id == m2.facts@[a].id);
        assert(m1.facts@[b].id == m2.facts@[b].id);
        assert(crate::text::seq_lt(m1.facts@[a].key(), m1.facts@[b].key()));
    };
}

/// Every dependency fact in `s` has a source and a target.
pub open spec fn binary_members(s: Seq<ProjectFact>) -> bool {
    forall|f: ProjectFact| #[trigger] s.contains(f) && f.relation@ == "declares_direct_dependency"@ ==> f.arguments@.len() >= 2
}

proof fn lemma_package_fact_binary(meta: CargoMetadata, texts: Seq<(String, String)>, p: crate::cargo::CargoPackage, g: ProjectFact)
    requires
        crate::cargo::fact_of_package(meta, texts, p, g),
        g.relation@ == "declares_direct_dependency"@,
    ensures
        g.arguments@.len() >= 2,
{
    if exists|d: int| 0 <= d < p.dependencies@.len() && crate::cargo::dependency_fact(meta.workspace_root@, texts, p, #[trigger] p.dependencies@[d], g) {
        let d = choose|d: int| 0 <= d < p.dependencies@.len() && crate::cargo::dependency_fact(meta.workspace_root@, texts, p, #[trigger] p.dependencies@[d], g);
        assert(strs(g.arguments@).len() == 2);
    } else {
        reveal_strlit("package");
        reveal_strlit("workspace_member");
        reveal_strlit("declares_direct_dependency");
        assert("package"@ != "declares_direct_dependency"@) by {
            assert("package"@.len() != "declares_direct_dependency"@.len());
        };
        assert("workspace_member"@ != "declares_direct_dependency"@) by {
            assert("workspace_member"@.len() != "declares_direct_dependency"@.len());
        };
    }
}

proof fn lemma_extracted_binary(meta: CargoMetadata, texts: Seq<(String, String)>, c: CargoFacts)
    requires
        forall|f: ProjectFact| #[trigger] c.facts@.contains(f) ==> exists|i: int| 0 <= i < meta.packages@.len()
            && crate::cargo::fact_of_package(meta, texts, #[trigger] meta.packages@[i], f),
    ensures
        binary_members(c.facts@),
{
    assert forall|g: ProjectFact| #[trigger] c.facts@.contains(g) && g.relation@ == "declares_direct_dependency"@ implies g.arguments@.len() >= 2 by {
        let q = choose|q: int| 0 <= q < meta.packages@.len() && crate::cargo::fact_of_package(meta, texts, #[trigger] meta.packages@[q], g);
        lemma_package_fact_binary(meta, texts, meta.packages@[q], g);
    };
}

proof fn lemma_namespaced_binary(cb: ProjectModel, cm: ProjectModel, root: Seq<char>)
    requires
        binary_members(cb.facts@),
        namespaced(cb, cm, "project"@, root),
    ensures
        binary_members(cm.facts@),
{
    assert forall|f: ProjectFact| #[trigger] cm.facts@.contains(f) && f.relation@ == "declares_direct_dependency"@ implies f.arguments@.len() >= 2 by {
        let j = choose|j: int| 0 <= j < cm.facts@.len() && cm.facts@[j] == f;
        let g = cb.facts@[j];
        assert(g.relation == f.relation && g.arguments@ == f.arguments@);
        assert(cb.facts@.contains(g));
    };
}

/// Dependency facts of the workspace have a source and a target.
proof fn lemma_binary_facts(meta: CargoMetadata, texts: Seq<(String, String)>, c: CargoFacts, cb: ProjectModel, cm: ProjectModel, root: Seq<char>, m2: ProjectModel, mm: ProjectModel)
    requires
        crate::cargo::extracted_from(meta, texts, c),
        cargo_base(c.artifacts@, c.facts@, cb),
        namespaced(cb, cm, "project"@, root),
        m2.facts@.len() == 0,
        merged(m2, cm, c.coverage@, mm),
    ensures
        dependency_facts_binary(mm.facts@),
{
    lemma_extracted_binary(meta, texts, c);
    assert(binary_members(cb.facts@));
    lemma_namespaced_binary(cb, cm, root);
    assert forall|i: int| 0 <= i < mm.facts@.len() && (#[trigger] mm.facts@[i]).relation@ == "declares_direct_dependency"@ implies mm.facts@[i].arguments@.len() >= 2 by {
        let f = mm.facts@[i];
        assert(mm.facts@.contains(f));
        if !cm.facts@.contains(f) {
            assert(m2.facts@.contains(f));
        }
    };
}

// ---------------------------------------------------------------------------
// Assembly
// ---------------------------------------------------------------------------

fn add_spec_inputs(roots: &VerificationRoots, spec: &EffectiveSpecification, inputs: &mut Vec<SemanticInput>)
    requires
        old(inputs)@.len() == 0,
    ensures
        inputs_of(spec_candidates(*roots, *spec), final(inputs)@),
{
    let ghost all = spec_candidates(*roots, *spec);
    proof {
        assert(all.take(0) =~= Seq::<(Seq<char>, Seq<char>)>::empty());
        assert(from_candidates(all.take(0), inputs@)) by { reveal(from_candidates); };
        assert(covers_candidates(all.take(0), inputs@)) by { reveal(covers_candidates); };
    }
    let mut k: usize = 0;
    while k < spec.clauses.len()
        invariant
            k <= spec.clauses@.len(),
            all == spec_candidates(*roots, *spec),
            all.len() == spec.clauses@.len(),
            inputs_of(all.take(k as int), inputs@),
        decreases spec.clauses.len() - k,
    {
        let file = &spec.clauses[k].span.filename;
        let identity = roots.spec_identity(file.as_str());
        proof {
            assert(all.take(k + 1) =~= all.take(k as int).push((identity@, file@)));
        }
        add_input(inputs, identity, file.clone(), Ghost(all.take(k as int)));
        k = k + 1;
    }
    proof {
        assert(all.take(all.len() as int) =~= all);
    }
}

fn add_cargo_inputs(roots: &VerificationRoots, files: &Vec<String>, inputs: &mut Vec<SemanticInput>, Ghost(before): Ghost<Seq<(Seq<char>, Seq<char>)>>)
    requires
        inputs_of(before, old(inputs)@),
    ensures
        inputs_of(before + files@.map_values(|p: String| (identity_of("project"@, roots.project_root@, p@), p@)), final(inputs)@),
{
    let ghost all = files@.map_values(|p: String| (identity_of("project"@, roots.project_root@, p@), p@));
    proof {
        assert(before + all.take(0) =~= before);
    }
    let mut k: usize = 0;
    while k < files.len()
        invariant
            k <= files@.len(),
            all == files@.map_values(|p: String| (identity_of("project"@, roots.project_root@, p@), p@)),
            inputs_of(before + all.take(k as int), inputs@),
        decreases files.len() - k,
    {
        let file = &files[k];
        let identity = roots.project_identity(file.as_str());
        proof {
            assert(before + all.take(k + 1) =~= (before + all.take(k as int)).push((identity@, file@)));
        }
        add_input(inputs, identity, file.clone(), Ghost(before + all.take(k as int)));
        k = k + 1;
    }
    proof {
        assert(all.take(all.len() as int) =~= all);
    }
}

/// Merges the workspace facts into `model`, enriches the `Package` entity type and
/// derives the absent dependency declarations.
fn add_workspace(model: &mut ProjectModel, c: CargoFacts, root: &str, Ghost(meta): Ghost<CargoMetadata>, Ghost(texts): Ghost<Seq<(String, String)>>)
    requires
        crate::cargo::extracted_from(meta, texts, c),
        strictly_sorted(old(model).artifacts@),
        old(model).facts@.len() == 0,
        members_sorted(old(model).declarations@),
    ensures
        with_workspace(*old(model), c, root@, *final(model)),
        strictly_sorted(final(model).facts@),
        strictly_sorted(final(model).edges@),
{
    let ghost m2 = *model;
    let ghost cv = c;
    let CargoFacts { artifacts, facts, input_files: _, coverage } = c;
    let cb = base_model(artifacts, facts);
    let ghost cbv = cb;
    let mut cm = cb;
    crate::loading::namespace_model_artifacts(&mut cm, "project", root);
    let ghost cmv = cm;
    proof {
        assert(cargo_model(cv, root@, cmv));
    }
    merge_into(model, cm, coverage);
    let ghost mm = *model;
    proof {
        lemma_binary_facts(meta, texts, cv, cbv, cmv, root@, m2, mm);
    }
    crate::loading::enrich_package_domain(model);
    let ghost me = *model;
    crate::loading::apply_closed_world_facts(model);
    proof {
        assert(merged(m2, cmv, cv.coverage@, mm));
        assert(package_enriched(mm, me));
        assert(dependencies_closed(me, *model));
        assert(with_workspace(m2, cv, root@, *model));
    }
}

/// The project model and its inputs, from the ADRs and, where there is one, the
/// workspace: the effective specification (proposed ADRs left out) lowered with its
/// sources made `spec:` identities; the workspace facts merged with their sources made
/// `project:` identities, the `Package` entity type enriched and absent dependency
/// declarations derived; then the closed-world absences of declared relations.
/// Fails as `effective` does.
pub fn assemble_project_model(
    roots: &VerificationRoots,
    adrs: &Vec<Adr>,
    cargo: Option<(CargoMetadata, Vec<(String, String)>)>,
) -> (r: Result<(ProjectModel, Vec<SemanticInput>), crate::adr::Error>)
    ensures
        r is Ok <==> (all_refs_resolved(adrs@) && exists|o: Seq<int>|
            is_activation_order(adrs@, false, o) && #[trigger] views_typed(gathered_decls(adrs@, o), gathered_clauses(adrs@, o))),
        !all_refs_resolved(adrs@) <==> r matches Err(crate::adr::Error::InvalidReference { .. }),
        r matches Ok((m, inputs)) ==> assembled(*roots, adrs@, cargo, m, inputs@),
        r matches Ok((m, inputs)) ==> strictly_sorted(m.constraints@) && strictly_sorted(m.facts@),
{
    let spec = match crate::effective::effective(adrs, false) {
        Ok(s) => s,
        Err(e) => return Err(e),
    };
    let mut model = crate::lowering::lower_to_project_model(adrs, &spec);
    let ghost m1 = model;
    let mut inputs: Vec<SemanticInput> = Vec::new();
    add_spec_inputs(roots, &spec, &mut inputs);
    crate::loading::namespace_model_artifacts(&mut model, "spec", roots.specification_root.as_str());
    let ghost m2 = model;
    proof {
        lemma_lowered_members_sorted(adrs@, spec, m1);
        lemma_namespaced_constraints_sorted(m1, m2, "spec"@, roots.specification_root@);
    }
    let ghost cargo_v = cargo;
    match cargo {
        None => {
            model.normalize();
            proof {
                assert forall|k: Seq<char>| #[trigger] has_key(model.edges@, k) <==> has_key(m2.edges@, k) by {
                    if has_key(model.edges@, k) {
                        let i = choose|i: int| 0 <= i < model.edges@.len() && #[trigger] model.edges@[i].key() == k;
                        assert(model.edges@.contains(model.edges@[i]));
                        let j = choose|j: int| 0 <= j < m2.edges@.len() && m2.edges@[j] == model.edges@[i];
                        assert(m2.edges@[j].key() == k);
                    }
                    if has_key(m2.edges@, k) {
                        let j = choose|j: int| 0 <= j < m2.edges@.len() && #[trigger] m2.edges@[j].key() == k;
                        assert(m2.edges@.contains(m2.edges@[j]));
                    }
                };
                assert(edges_normalized(m2, model));
            }
        },
        Some((meta, texts)) => {
            let c = crate::cargo::extract_facts(&meta, &texts);
            let ghost cv = c;
            proof {
                assert(spec_candidates(*roots, spec) + cargo_candidates(*roots, cv)
                    == spec_candidates(*roots, spec) + cv.input_files@.map_values(|p: String| (identity_of("project"@, roots.project_root@, p@), p@)));
            }
            add_cargo_inputs(roots, &c.input_files, &mut inputs, Ghost(spec_candidates(*roots, spec)));
            add_workspace(&mut model, c, roots.project_root.as_str(), Ghost(meta), Ghost(texts@));
        },
    }
    let ghost m3 = model;
    crate::loading::apply_generic_closed_world_facts(&mut model);
    proof {
        assert(assembled(*roots, adrs@, cargo_v, model, inputs@));
    }
    Ok((model, inputs))
}

/// The ADRs assemble into a model: every reference resolves and some activation
/// order gives declarations under which every clause is well typed.
pub open spec fn assembles(adrs: Seq<Adr>) -> bool {
    all_refs_resolved(adrs) && exists|o: Seq<int>|
        is_activation_order(adrs, false, o) && #[trigger] views_typed(gathered_decls(adrs, o), gathered_clauses(adrs, o))
}

/// Two ADR lists that agree view for view.
pub open spec fn same_views(a: Seq<Adr>, b: Seq<Adr>) -> bool {
    a.len() == b.len() && forall|i: int| 0 <= i < a.len() ==> crate::document::adr_view(#[trigger] a[i]) == crate::document::adr_view(b[i])
}

proof fn lemma_strs_has(v: Seq<String>, w: Seq<String>, x: Seq<char>)
    requires
        strs(v) == strs(w),
    ensures
        crate::keyed::set_has(v, x) <==> crate::keyed::set_has(w, x),
{
    assert(v.len() == strs(v).len() && w.len() == strs(w).len());
    if crate::keyed::set_has(v, x) {
        let i = choose|i: int| 0 <= i < v.len() && #[trigger] v[i]@ == x;
        assert(strs(v)[i] == w[i]@);
    }
    if crate::keyed::set_has(w, x) {
        let i = choose|i: int| 0 <= i < w.len() && #[trigger] w[i]@ == x;
        assert(strs(w)[i] == v[i]@);
    }
}

proof fn lemma_gathered_same(a: Seq<Adr>, b: Seq<Adr>, o: Seq<int>)
    requires
        same_views(a, b),
        forall|k: int| 0 <= k < o.len() ==> 0 <= #[trigger] o[k] < a.len(),
    ensures
        gathered_decls(a, o) == gathered_decls(b, o),
        gathered_clauses(a, o) == gathered_clauses(b, o),
    decreases o.len(),
{
    if o.len() > 0 {
        lemma_gathered_same(a, b, o.drop_last());
        let j = o.last();
        assert(o[o.len() - 1] == j);
        assert(crate::document::adr_view(a[j]) == crate::document::adr_view(b[j]));
        assert(crate::effective::clause_views(a[j].clauses@) == crate::document::clause_views(a[j].clauses@));
        assert(crate::effective::clause_views(b[j].clauses@) == crate::document::clause_views(b[j].clauses@));
    }
}

/// Whether ADRs assemble depends only on their views.
pub proof fn lemma_assembles_views(a: Seq<Adr>, b: Seq<Adr>)
    requires
        same_views(a, b),
    ensures
        assembles(a) <==> assembles(b),
{
    assert forall|i: int| 0 <= i < a.len() implies strs(crate::effective::refs(a[i])) == strs(crate::effective::refs(b[i])) by {
        assert(crate::document::adr_view(a[i]) == crate::document::adr_view(b[i]));
        assert(strs(crate::effective::refs(a[i])) =~= strs(a[i].supersedes@) + strs(a[i].amends@) + strs(a[i].exception_to@));
        assert(strs(crate::effective::refs(b[i])) =~= strs(b[i].supersedes@) + strs(b[i].amends@) + strs(b[i].exception_to@));
    };
    assert forall|x: Seq<char>| crate::effective::superseded(a, x) <==> crate::effective::superseded(b, x) by {
        if crate::effective::superseded(a, x) {
            let i = choose|i: int| 0 <= i < a.len() && a[i].status == crate::adr::Status::Accepted && #[trigger] crate::keyed::set_has(a[i].supersedes@, x);
            assert(crate::document::adr_view(a[i]) == crate::document::adr_view(b[i]));
            lemma_strs_has(a[i].supersedes@, b[i].supersedes@, x);
        }
        if crate::effective::superseded(b, x) {
            let i = choose|i: int| 0 <= i < b.len() && b[i].status == crate::adr::Status::Accepted && #[trigger] crate::keyed::set_has(b[i].supersedes@, x);
            assert(crate::document::adr_view(a[i]) == crate::document::adr_view(b[i]));
            lemma_strs_has(a[i].supersedes@, b[i].supersedes@, x);
        }
    };
    assert forall|i: int| 0 <= i < a.len() implies (crate::effective::is_active(a, false, i) <==> crate::effective::is_active(b, false, i)) by {
        assert(crate::document::adr_view(a[i]) == crate::document::adr_view(b[i]));
    };
    assert forall|i: int, j: int| 0 <= i < a.len() && 0 <= j < a.len() implies (crate::effective::rank_lt(a, i, j) <==> crate::effective::rank_lt(b, i, j)) by {
        assert(crate::document::adr_view(a[i]) == crate::document::adr_view(b[i]));
        assert(crate::document::adr_view(a[j]) == crate::document::adr_view(b[j]));
    };
    assert(all_refs_resolved(a) <==> all_refs_resolved(b)) by {
        assert forall|i: int| 0 <= i < a.len() implies (crate::effective::refs_resolved(a, i) <==> crate::effective::refs_resolved(b, i)) by {
            let ra = crate::effective::refs(a[i]);
            let rb = crate::effective::refs(b[i]);
            assert(ra.len() == strs(ra).len() && rb.len() == strs(rb).len());
            assert forall|r: Seq<char>| crate::effective::known_id(a, r) <==> crate::effective::known_id(b, r) by {
                if crate::effective::known_id(a, r) {
                    let k = choose|k: int| 0 <= k < a.len() && #[trigger] a[k].id@ == r;
                    assert(crate::document::adr_view(a[k]) == crate::document::adr_view(b[k]));
                }
                if crate::effective::known_id(b, r) {
                    let k = choose|k: int| 0 <= k < b.len() && #[trigger] b[k].id@ == r;
                    assert(crate::document::adr_view(a[k]) == crate::document::adr_view(b[k]));
                }
            };
            assert(strs(ra) == strs(rb));
            assert forall|k: int| 0 <= k < ra.len() implies #[trigger] ra[k]@ == rb[k]@ by {
                assert(strs(ra)[k] == strs(rb)[k]);
            };
            if crate::effective::refs_resolved(a, i) {
                assert forall|k: int| 0 <= k < rb.len() implies crate::effective::known_id(b, #[trigger] rb[k]@) by {
                    assert(ra[k]@ == rb[k]@);
                    assert(crate::effective::known_id(a, ra[k]@));
                };
            }
            if crate::effective::refs_resolved(b, i) {
                assert forall|k: int| 0 <= k < ra.len() implies crate::effective::known_id(a, #[trigger] ra[k]@) by {
                    assert(ra[k]@ == rb[k]@);
                    assert(crate::effective::known_id(b, rb[k]@));
                };
            }
        };
    };
    if assembles(a) {
        let o = choose|o: Seq<int>| is_activation_order(a, false, o) && #[trigger] views_typed(gathered_decls(a, o), gathered_clauses(a, o));
        lemma_gathered_same(a, b, o);
        assert(is_activation_order(b, false, o));
        assert(views_typed(gathered_decls(b, o), gathered_clauses(b, o)));
    }
    if assembles(b) {
        let o = choose|o: Seq<int>| is_activation_order(b, false, o) && #[trigger] views_typed(gathered_decls(b, o), gathered_clauses(b, o));
        lemma_gathered_same(a, b, o);
        assert(is_activation_order(a, false, o));
        assert(views_typed(gathered_decls(a, o), gathered_clauses(a, o)));
    }
}

/// ADR lists read from the same documents agree view for view.
pub proof fn lemma_parsed_same(documents: Seq<(String, String)>, a: Seq<Adr>, b: Seq<Adr>)
    requires
        crate::document::parsed_as(documents, a),
        crate::document::parsed_as(documents, b),
    ensures
        same_views(a, b),
{
    assert forall|i: int| 0 <= i < a.len() implies crate::document::adr_view(#[trigger] a[i]) == crate::document::adr_view(b[i]) by {
        assert(crate::document::adr_of(documents[i].0@, documents[i].1@) == Some(crate::document::adr_view(a[i])));
    };
}

/// Every document holds an ADR, and the ADRs they hold assemble.
pub open spec fn loads(documents: Seq<(String, String)>) -> bool {
    &&& crate::document::all_parse(documents)
    &&& forall|adrs: Seq<Adr>| #[trigger] crate::document::parsed_as(documents, adrs) ==> assembles(adrs)
}

/// Bytes are given for the relevant inputs of the consistency obligation of every
/// model the documents assemble into.
pub open spec fn inputs_given(
    roots: VerificationRoots,
    documents: Seq<(String, String)>,
    cargo: Option<(CargoMetadata, Vec<(String, String)>)>,
    contents: Seq<(String, Vec<u8>)>,
) -> bool {
    forall|adrs: Seq<Adr>, m: ProjectModel, inputs: Seq<SemanticInput>, ob: crate::lowering::RelationalProofObligation|
        #[trigger] crate::document::parsed_as(documents, adrs) && #[trigger] assembled(roots, adrs, cargo, m, inputs)
            && #[trigger] crate::lowering::is_obligation_of(m, ob) ==> inputs_available(ob, inputs, contents)
}

/// Reads the ADR documents and assembles the project model from them and, where
/// there is one, the workspace. Fails as `load_adrs` does, else as
/// `assemble_project_model` does.
pub fn load_project_model_with_roots(
    roots: &VerificationRoots,
    documents: &Vec<(String, String)>,
    cargo: Option<(CargoMetadata, Vec<(String, String)>)>,
) -> (r: Result<(ProjectModel, Vec<SemanticInput>), crate::adr::Error>)
    ensures
        (exists|i: int| 0 <= i < documents@.len() && !crate::document::has_front_matter((#[trigger] documents@[i]).1@)) ==> r is Err,
        r is Ok <==> loads(documents@),
        r matches Ok((m, inputs)) ==> exists|adrs: Seq<Adr>| #[trigger] crate::document::read_from(documents@, adrs)
            && crate::document::parsed_as(documents@, adrs) && assembles(adrs) && assembled(*roots, adrs, cargo, m, inputs@),
        r matches Ok((m, inputs)) ==> strictly_sorted(m.constraints@) && strictly_sorted(m.facts@),
{
    let adrs = match crate::document::load_adrs(documents) {
        Ok(a) => a,
        Err(e) => return Err(e),
    };
    let r = assemble_project_model(roots, &adrs, cargo);
    proof {
        if r is Ok {
            assert(crate::document::read_from(documents@, adrs@));
            assert(crate::document::parsed_as(documents@, adrs@));
        }
        if loads(documents@) {
            assert(crate::document::parsed_as(documents@, adrs@));
            assert(assembles(adrs@));
        }
        if r is Ok {
            assert forall|b: Seq<Adr>| #[trigger] crate::document::parsed_as(documents@, b) implies assembles(b) by {
                lemma_parsed_same(documents@, adrs@, b);
                lemma_assembles_views(adrs@, b);
            };
        }
    }
    r
}

/// `m` and the input paths are what loading gives for a project whose
/// specification and workspace share `root`.
pub open spec fn loaded_at(
    root: Seq<char>,
    cwd: Seq<char>,
    documents: Seq<(String, String)>,
    cargo: Option<(CargoMetadata, Vec<(String, String)>)>,
    m: ProjectModel,
    paths: Seq<String>,
) -> bool {
    exists|roots: VerificationRoots, adrs: Seq<Adr>, inputs: Seq<SemanticInput>|
        #[trigger] crate::roots::roots_of(roots, root, root, crate::roots::joined(root, ".adrproof"@), cwd)
        && crate::document::read_from(documents, adrs) && #[trigger] assembled(roots, adrs, cargo, m, inputs)
        && paths.len() == inputs.len() && forall|j: int| 0 <= j < inputs.len() ==> (#[trigger] paths[j])@ == inputs[j].path@
}

/// The project model of a project whose specification and workspace share `root`
/// (evidence kept under `root/.adrproof`), with the paths of its inputs.
pub fn load_project_model(
    root: &str,
    cwd: &str,
    documents: &Vec<(String, String)>,
    cargo: Option<(CargoMetadata, Vec<(String, String)>)>,
) -> (r: Result<(ProjectModel, Vec<String>), crate::adr::Error>)
    ensures
        (exists|i: int| 0 <= i < documents@.len() && !crate::document::has_front_matter((#[trigger] documents@[i]).1@)) ==> r is Err,
        loads(documents@) ==> r is Ok,
        r matches Ok((m, paths)) ==> loaded_at(root@, cwd@, documents@, cargo, m, paths@),
{
    let state = crate::roots::join_exec(root, ".adrproof");
    let roots = VerificationRoots::legacy(root, state.as_str(), cwd);
    match load_project_model_with_roots(&roots, documents, cargo) {
        Ok((model, inputs)) => {
            let mut paths: Vec<String> = Vec::new();
            let mut i: usize = 0;
            while i < inputs.len()
                invariant
                    i <= inputs@.len(),
                    paths@.len() == i,
                    forall|j: int| 0 <= j < i ==> (#[trigger] paths@[j])@ == inputs@[j].path@,
                decreases inputs.len() - i,
            {
                let p = crate::text::own(inputs[i].path.as_str());
                paths.push(p);
                i = i + 1;
            }
            proof {
                let adrs = choose|adrs: Seq<Adr>| #[trigger] crate::document::read_from(documents@, adrs)
                    && assembled(roots, adrs, cargo, model, inputs@);
                assert(crate::roots::roots_of(roots, root@, root@, crate::roots::joined(root@, ".adrproof"@), cwd@));
                assert(assembled(roots, adrs, cargo, model, inputs@));
                assert(crate::document::read_from(documents@, adrs));
                assert(paths@.len() == inputs@.len() && forall|j: int| 0 <= j < inputs@.len() ==> (#[trigger] paths@[j])@ == inputs@[j].path@);
                assert(loaded_at(root@, cwd@, documents@, cargo, model, paths@));
            }
            Ok((model, paths))
        },
        Err(e) => Err(e),
    }
}

// ---------------------------------------------------------------------------
// The status of the latest evidence
// ---------------------------------------------------------------------------

pub open spec fn input_pairs(s: Seq<SemanticInput>) -> Seq<(Seq<char>, Seq<char>)> {
    s.map_values(|x: SemanticInput| (x.identity@, x.path@))
}

/// The bytes given for `path` (the first entry for it).
pub open spec fn content_of(contents: Seq<(String, Vec<u8>)>, path: Seq<char>) -> Option<Seq<u8>>
    decreases contents.len(),
{
    if contents.len() == 0 {
        None
    } else if contents[0].0@ == path {
        Some(contents[0].1@)
    } else {
        content_of(contents.drop_first(), path)
    }
}

fn content_exec<'a>(contents: &'a Vec<(String, Vec<u8>)>, path: &str) -> (r: Option<&'a Vec<u8>>)
    ensures
        match r {
            Some(b) => content_of(contents@, path@) == Some(b@),
            None => content_of(contents@, path@) is None,
        },
{
    let mut i: usize = 0;
    proof {
        assert(contents@.skip(0) =~= contents@);
    }
    while i < contents.len()
        invariant
            i <= contents@.len(),
            content_of(contents@, path@) == content_of(contents@.skip(i as int), path@),
        decreases contents.len() - i,
    {
        proof {
            assert(contents@.skip(i as int).drop_first() =~= contents@.skip(i + 1));
            assert(contents@.skip(i as int)[0] == contents@[i as int]);
        }
        if crate::text::str_eq(contents[i].0.as_str(), path) {
            return Some(&contents[i].1);
        }
        i = i + 1;
    }
    None
}

/// `fps` fingerprints every input of `u`, in order, by its identity and the bytes
/// given for its path.
pub open spec fn fingerprinted(u: Seq<SemanticInput>, contents: Seq<(String, Vec<u8>)>, fps: Seq<crate::evidence::InputFingerprint>) -> bool {
    &&& fps.len() == u.len()
    &&& forall|j: int| 0 <= j < u.len() ==> {
        &&& (#[trigger] fps[j]).source@ == u[j].identity@
        &&& content_of(contents, u[j].path@) matches Some(b) && fps[j].sha256@ == crate::evidence::sha256_hex(b)
    }
}

/// Fingerprints the inputs, one per identity (the least path for it), in identity
/// order, from the bytes given for their paths; fails on an input whose path has no
/// bytes given.
pub fn fingerprint_semantic_files(inputs: &Vec<SemanticInput>, contents: &Vec<(String, Vec<u8>)>) -> (r: Result<Vec<crate::evidence::InputFingerprint>, crate::adr::Error>)
    ensures
        exists|u: Seq<SemanticInput>| #[trigger] inputs_of(input_pairs(inputs@), u) && {
            &&& r is Ok <==> forall|j: int| 0 <= j < u.len() ==> content_of(contents@, (#[trigger] u[j]).path@) is Some
            &&& r matches Ok(fps) ==> fingerprinted(u, contents@, fps@)
            &&& r matches Err(e) ==> e matches crate::adr::Error::Io { path, .. } && exists|j: int|
                0 <= j < u.len() && (#[trigger] u[j]).path@ == path@ && content_of(contents@, path@) is None
        },
{
    let mut unique: Vec<SemanticInput> = Vec::new();
    let ghost all = input_pairs(inputs@);
    proof {
        assert(all.take(0) =~= Seq::<(Seq<char>, Seq<char>)>::empty());
        assert(from_candidates(all.take(0), unique@)) by { reveal(from_candidates); };
        assert(covers_candidates(all.take(0), unique@)) by { reveal(covers_candidates); };
    }
    let mut k: usize = 0;
    while k < inputs.len()
        invariant
            k <= inputs@.len(),
            all == input_pairs(inputs@),
            all.len() == inputs@.len(),
            inputs_of(all.take(k as int), unique@),
        decreases inputs.len() - k,
    {
        let identity = crate::text::own(inputs[k].identity.as_str());
        let path = crate::text::own(inputs[k].path.as_str());
        proof {
            assert(all.take(k + 1) =~= all.take(k as int).push((identity@, path@)));
        }
        add_input(&mut unique, identity, path, Ghost(all.take(k as int)));
        k = k + 1;
    }
    proof {
        assert(all.take(all.len() as int) =~= all);
    }
    let ghost u = unique@;
    let mut fps: Vec<crate::evidence::InputFingerprint> = Vec::new();
    let mut j: usize = 0;
    while j < unique.len()
        invariant
            j <= u.len(),
            unique@ == u,
            inputs_of(input_pairs(inputs@), u),
            fingerprinted(u.take(j as int), contents@, fps@),
            forall|q: int| 0 <= q < j ==> content_of(contents@, (#[trigger] u[q]).path@) is Some,
        decreases u.len() - j,
    {
        let x = &unique[j];
        match content_exec(contents, x.path.as_str()) {
            Some(bytes) => {
                let f = crate::evidence::fingerprint_bytes(x.identity.as_str(), bytes.as_slice());
                let ghost f0 = fps@;
                fps.push(f);
                proof {
                    assert forall|q: int| 0 <= q < j + 1 implies {
                        &&& (#[trigger] fps@[q]).source@ == u.take(j + 1)[q].identity@
                        &&& content_of(contents@, u.take(j + 1)[q].path@) matches Some(b) && fps@[q].sha256@ == crate::evidence::sha256_hex(b)
                    } by {
                        if q < j {
                            assert(f0[q] == fps@[q]);
                            assert(u.take(j as int)[q] == u.take(j + 1)[q]);
                        }
                    };
                }
            },
            None => {
                let e = crate::adr::Error::Io { path: crate::text::own(x.path.as_str()), message: crate::text::own("no such input") };
                proof {
                    assert(!(forall|q: int| 0 <= q < u.len() ==> content_of(contents@, (#[trigger] u[q]).path@) is Some));
                    assert(u[j as int].path@ == x.path@);
                }
                return Err(e);
            },
        }
        j = j + 1;
    }
    proof {
        assert(u.take(u.len() as int) =~= u);
    }
    Ok(fps)
}

/// `text` is the SMT-LIB problem of the obligation.
pub open spec fn smt_text_of(ob: crate::lowering::RelationalProofObligation, text: Seq<char>) -> bool {
    exists|t: crate::smt::SmtSymbols| #[trigger] crate::smt::symbols_of(t, crate::smt::intent_decl_views(ob.model.declarations@))
        && text == crate::smt::smt_header() + crate::smt::declarations_text(t)
            + crate::smt::concat(crate::smt::constraint_asserts(ob.model.constraints@, crate::smt::entity_views(t.entities@)))
            + crate::smt::concat(crate::smt::fact_asserts(ob.model, t)) + crate::smt::smt_footer()
}

/// The hash of the solver configuration checks run with.
pub open spec fn solver_configuration(timeout_ms: u64) -> Seq<char> {
    crate::evidence::sha256_hex(vstd::utf8::encode_utf8(crate::evidence::configuration_text(timeout_ms, seq!["smt.core.minimize=true"@])))
}

/// The status that the latest of `evidence` gives for the current fingerprints.
pub open spec fn status_from(
    evidence: Seq<crate::evidence::Evidence>,
    current: Seq<crate::evidence::InputFingerprint>,
    backend_version: Seq<char>,
    config: Seq<char>,
    st: crate::evidence::VerificationStatus,
) -> bool {
    if evidence.len() == 0 {
        st == crate::evidence::VerificationStatus::Unverified
    } else {
        exists|i: int| #[trigger] crate::evidence::is_latest(evidence, i) && st == match crate::evidence::validity_of(evidence[i], current, backend_version, config) {
            crate::evidence::EvidenceValidity::Current => evidence[i].result_at_execution,
            crate::evidence::EvidenceValidity::Stale => crate::evidence::VerificationStatus::Stale,
        }
    }
}

/// `st` is the status of the evidence for the consistency obligation of `m`: the
/// current fingerprints are those of the relevant inputs, in identity order, then
/// that of the generated SMT-LIB problem.
pub open spec fn evidence_status_for(
    m: ProjectModel,
    inputs: Seq<SemanticInput>,
    contents: Seq<(String, Vec<u8>)>,
    evidence: Seq<crate::evidence::Evidence>,
    backend_version: Seq<char>,
    timeout_ms: u64,
    st: crate::evidence::VerificationStatus,
) -> bool {
    exists|ob: crate::lowering::RelationalProofObligation, rel: Seq<SemanticInput>, u: Seq<SemanticInput>,
        fps: Seq<crate::evidence::InputFingerprint>, text: Seq<char>, f: crate::evidence::InputFingerprint| {
        &&& #[trigger] crate::lowering::is_obligation_of(m, ob)
        &&& #[trigger] crate::loading::relevant_inputs_of(ob.model, inputs, rel)
        &&& #[trigger] inputs_of(input_pairs(rel), u)
        &&& #[trigger] fingerprinted(u, contents, fps)
        &&& #[trigger] smt_text_of(ob, text)
        &&& f.source@ == "generated:effective.smt2"@
        &&& f.sha256@ == crate::evidence::sha256_hex(vstd::utf8::encode_utf8(text))
        &&& #[trigger] status_from(evidence, fps.push(f), backend_version, solver_configuration(timeout_ms), st)
    }
}

/// The status of the latest evidence for the project as it now stands: loads the
/// model, takes its consistency obligation, fingerprints the inputs it depends on
/// from the bytes given for them and the generated problem, and assesses the latest
/// evidence against them. Fails when loading fails or an input has no bytes given.
pub fn current_evidence_status_with_roots(
    roots: &VerificationRoots,
    documents: &Vec<(String, String)>,
    cargo: Option<(CargoMetadata, Vec<(String, String)>)>,
    contents: &Vec<(String, Vec<u8>)>,
    evidence: Vec<crate::evidence::Evidence>,
    backend_version: &str,
    timeout_ms: u64,
) -> (r: Result<crate::evidence::VerificationStatus, crate::adr::Error>)
    ensures
        (exists|i: int| 0 <= i < documents@.len() && !crate::document::has_front_matter((#[trigger] documents@[i]).1@)) ==> r is Err,
        loads(documents@) && inputs_given(*roots, documents@, cargo, contents@) ==> r is Ok,
        r matches Ok(st) ==> exists|adrs: Seq<Adr>, m: ProjectModel, inputs: Seq<SemanticInput>|
            #[trigger] crate::document::read_from(documents@, adrs) && #[trigger] assembled(*roots, adrs, cargo, m, inputs)
            && evidence_status_for(m, inputs, contents@, evidence@, backend_version@, timeout_ms, st),
{
    let ghost cargo_v = cargo;
    let (model, inputs) = match load_project_model_with_roots(roots, documents, cargo) {
        Ok(x) => x,
        Err(e) => return Err(e),
    };
    let ghost mv = model;
    let ghost iv = inputs@;
    let ob = crate::lowering::relational_obligation(model);
    let rel = crate::loading::relevant_semantic_inputs(&ob.model, &inputs);
    let fr = fingerprint_semantic_files(&rel, contents);
    proof {
        crate::readback::lemma_available_iff(ob, inputs@, contents@, rel@, fr is Ok);
        if inputs_given(*roots, documents@, cargo_v, contents@) {
            let adrs = choose|adrs: Seq<Adr>| #[trigger] crate::document::read_from(documents@, adrs)
                && crate::document::parsed_as(documents@, adrs) && assembles(adrs) && assembled(*roots, adrs, cargo_v, mv, iv);
            assert(crate::document::parsed_as(documents@, adrs) && assembled(*roots, adrs, cargo_v, mv, iv)
                && crate::lowering::is_obligation_of(mv, ob));
        }
    }
    let mut fps = match fr {
        Ok(f) => f,
        Err(e) => return Err(e),
    };
    let ghost fps0 = fps@;
    let text = crate::smt::obligation_to_smt(&ob);
    let f = crate::evidence::fingerprint_bytes("generated:effective.smt2", text.as_str().as_bytes());
    fps.push(f);
    let mut flags: Vec<String> = Vec::new();
    flags.push(crate::text::own("smt.core.minimize=true"));
    let config = crate::evidence::configuration_hash(timeout_ms, &flags);
    proof {
        assert(strs(flags@) =~= seq!["smt.core.minimize=true"@]);
    }
    let ghost ev = evidence@;
    let last = crate::evidence::latest(evidence);
    let st = crate::evidence::evidence_status(last, &fps, backend_version, config.as_str());
    proof {
        assert(smt_text_of(ob, text@));
        let u = choose|u: Seq<SemanticInput>| #[trigger] inputs_of(input_pairs(rel@), u) && fingerprinted(u, contents@, fps0);
        assert(fps@ == fps0.push(f));
        if ev.len() > 0 {
            let i = choose|i: int| crate::evidence::is_latest(ev, i) && ev[i] == last.unwrap();
            assert(crate::evidence::is_latest(ev, i));
        }
        assert(status_from(ev, fps@, backend_version@, solver_configuration(timeout_ms), st));
        assert(evidence_status_for(mv, inputs@, contents@, ev, backend_version@, timeout_ms, st));
    }
    Ok(st)
}

/// `end` moved left past trailing `/`, never below 1.
pub open spec fn strip_slashes(s: Seq<char>, end: int) -> int
    decreases end,
{
    if end > 1 && end <= s.len() && s[end - 1] == '/' {
        strip_slashes(s, end - 1)
    } else {
        end
    }
}

/// `i` moved left to just after the nearest `/` before it (or to 0).
pub open spec fn back_to_slash(s: Seq<char>, i: int) -> int
    decreases i,
{
    if i > 0 && i <= s.len() && s[i - 1] != '/' {
        back_to_slash(s, i - 1)
    } else {
        i
    }
}

/// The directory that holds `p` as `Path::parent` gives it for a `/`-separated path:
/// trailing `/` ignored, the last component dropped together with the `/` before
/// it; empty for a single relative component, and `fallback` for the root or an
/// empty path, which have none.
pub open spec fn parent_text(p: Seq<char>, fallback: Seq<char>) -> Seq<char> {
    let end = strip_slashes(p, p.len() as int);
    if end == 0 || (end == 1 && p[0] == '/') {
        fallback
    } else {
        let i = back_to_slash(p, end);
        if i == 0 {
            Seq::empty()
        } else {
            p.subrange(0, strip_slashes(p, i))
        }
    }
}

/// The directory that holds `p` (`Path::parent`), or `fallback` where `p` has none.
fn parent_or(p: &str, fallback: &str) -> (r: String)
    ensures
        r@ == parent_text(p@, fallback@),
{
    let cs = crate::text::chars_of(p);
    let mut end: usize = cs.len();
    while end > 1 && cs[end - 1] == '/'
        invariant
            end <= cs@.len(),
            cs@ == p@,
            strip_slashes(p@, end as int) == strip_slashes(p@, p@.len() as int),
        decreases end,
    {
        end = end - 1;
    }
    if end == 0 || (end == 1 && cs[0] == '/') {
        return crate::text::own(fallback);
    }
    let mut i: usize = end;
    while i > 0 && cs[i - 1] != '/'
        invariant
            i <= end <= cs@.len(),
            cs@ == p@,
            back_to_slash(p@, i as int) == back_to_slash(p@, end as int),
        decreases i,
    {
        i = i - 1;
    }
    if i == 0 {
        return String::new();
    }
    let mut j: usize = i;
    while j > 1 && cs[j - 1] == '/'
        invariant
            1 <= j <= i <= cs@.len(),
            cs@ == p@,
            strip_slashes(p@, j as int) == strip_slashes(p@, i as int),
        decreases j,
    {
        j = j - 1;
    }
    crate::text::slice_string(&cs, 0, j)
}

/// The status of the latest evidence for a project whose specification and
/// workspace share `root`, with evidence kept in `evidence_directory` (the state root
/// is the directory that holds it).
pub fn current_evidence_status(
    root: &str,
    cwd: &str,
    evidence_directory: &str,
    documents: &Vec<(String, String)>,
    cargo: Option<(CargoMetadata, Vec<(String, String)>)>,
    contents: &Vec<(String, Vec<u8>)>,
    evidence: Vec<crate::evidence::Evidence>,
    backend_version: &str,
    timeout_ms: u64,
) -> (r: Result<crate::evidence::VerificationStatus, crate::adr::Error>)
    ensures
        (exists|i: int| 0 <= i < documents@.len() && !crate::document::has_front_matter((#[trigger] documents@[i]).1@)) ==> r is Err,
        loads(documents@) && (forall|roots: VerificationRoots| #[trigger] crate::roots::roots_of(roots, root@, root@, parent_text(evidence_directory@, root@), cwd@)
            ==> inputs_given(roots, documents@, cargo, contents@)) ==> r is Ok,
        r matches Ok(st) ==> exists|roots: VerificationRoots, adrs: Seq<Adr>, m: ProjectModel, inputs: Seq<SemanticInput>|
            roots.project_root@ == crate::roots::normalized(root@, cwd@) && roots.specification_root@ == crate::roots::normalized(root@, cwd@)
            && #[trigger] crate::document::read_from(documents@, adrs) && #[trigger] assembled(roots, adrs, cargo, m, inputs)
            && evidence_status_for(m, inputs, contents@, evidence@, backend_version@, timeout_ms, st),
{
    let state = parent_or(evidence_directory, root);
    let roots = VerificationRoots::legacy(root, state.as_str(), cwd);
    current_evidence_status_with_roots(&roots, documents, cargo, contents, evidence, backend_version, timeout_ms)
}

// ---------------------------------------------------------------------------
// A check with its evidence
// ---------------------------------------------------------------------------

/// The outcome of a check: the verdict, the evidence record to keep, the conflicts
/// of an unsat core, and the model and problem that were checked.
#[derive(Debug)]
pub struct CheckReport {
    pub roots: crate::roots::RootsView,
    pub verdict: crate::check::Verdict,
    pub evidence_status: crate::evidence::VerificationStatus,
    pub conflicts: Vec<crate::check::Conflict>,
    pub solver: String,
    pub elapsed_ms: u64,
    pub smt_artifact: String,
    pub ledger_artifact: String,
    pub evidence: crate::evidence::Evidence,
    pub obligation: crate::lowering::RelationalProofObligation,
}

/// `d` names each conflict as `ADR:clause`.
pub open spec fn conflict_names(cs: Seq<crate::check::Conflict>, d: Seq<String>) -> bool {
    &&& d.len() == cs.len()
    &&& forall|i: int| 0 <= i < cs.len() ==> (#[trigger] d[i])@ == cs[i].adr_id@ + ":"@ + cs[i].clause_id@
}

/// `e` records a check of `ob` over the current fingerprints `current`.
pub open spec fn records_check(
    e: crate::evidence::Evidence,
    ob: crate::lowering::RelationalProofObligation,
    result: crate::check::BackendResult,
    status: crate::evidence::VerificationStatus,
    conflicts: Seq<crate::check::Conflict>,
    current: Seq<crate::evidence::InputFingerprint>,
    recorded_at_unix_nanos: u128,
) -> bool {
    &&& e.id.0@ == "pending"@
    &&& e.obligation.0@ == ob.id.0@
    &&& e.backend@ == "z3"@
    &&& e.backend_version@ == result.solver_version@
    &&& e.configuration_sha256@ == solver_configuration(result.timeout_ms)
    &&& e.inputs@ == current
    &&& e.result_at_execution == status
    &&& e.recorded_at_unix_nanos == recorded_at_unix_nanos
    &&& conflict_names(conflicts, e.diagnostics@)
}

/// The fingerprints of the inputs of `ob`'s model relevant to it, then that of its
/// SMT-LIB problem.
pub open spec fn current_fingerprints(
    ob: crate::lowering::RelationalProofObligation,
    inputs: Seq<SemanticInput>,
    contents: Seq<(String, Vec<u8>)>,
    current: Seq<crate::evidence::InputFingerprint>,
) -> bool {
    exists|rel: Seq<SemanticInput>, u: Seq<SemanticInput>, fps: Seq<crate::evidence::InputFingerprint>, text: Seq<char>,
        f: crate::evidence::InputFingerprint| {
        &&& #[trigger] crate::loading::relevant_inputs_of(ob.model, inputs, rel)
        &&& #[trigger] inputs_of(input_pairs(rel), u)
        &&& #[trigger] fingerprinted(u, contents, fps)
        &&& #[trigger] smt_text_of(ob, text)
        &&& #[trigger] smt_fingerprint(f, text)
        &&& current == fps.push(f)
    }
}

/// Bytes are given for the path of every input of `ob`'s model relevant to it.
pub open spec fn inputs_available(
    ob: crate::lowering::RelationalProofObligation,
    inputs: Seq<SemanticInput>,
    contents: Seq<(String, Vec<u8>)>,
) -> bool {
    exists|rel: Seq<SemanticInput>, u: Seq<SemanticInput>|
        #[trigger] crate::loading::relevant_inputs_of(ob.model, inputs, rel) && #[trigger] inputs_of(input_pairs(rel), u)
            && forall|j: int| 0 <= j < u.len() ==> content_of(contents, (#[trigger] u[j]).path@) is Some
}

/// `f` fingerprints the generated problem `text`.
pub open spec fn smt_fingerprint(f: crate::evidence::InputFingerprint, text: Seq<char>) -> bool {
    &&& f.source@ == "generated:effective.smt2"@
    &&& f.sha256@ == crate::evidence::sha256_hex(vstd::utf8::encode_utf8(text))
}

fn conflict_diagnostics(cs: &Vec<crate::check::Conflict>) -> (d: Vec<String>)
    ensures
        conflict_names(cs@, d@),
{
    let mut d: Vec<String> = Vec::new();
    let mut i: usize = 0;
    while i < cs.len()
        invariant
            i <= cs@.len(),
            d@.len() == i,
            forall|j: int| 0 <= j < i ==> (#[trigger] d@[j])@ == cs@[j].adr_id@ + ":"@ + cs@[j].clause_id@,
        decreases cs.len() - i,
    {
        d.push(crate::text::cat3(cs[i].adr_id.as_str(), ":", cs[i].clause_id.as_str()));
        i = i + 1;
    }
    d
}

/// The evidence record of a check of `obligation`.
fn check_evidence(
    obligation: &crate::lowering::RelationalProofObligation,
    inputs: &Vec<SemanticInput>,
    contents: &Vec<(String, Vec<u8>)>,
    solver_version: &str,
    timeout_ms: u64,
    status: crate::evidence::VerificationStatus,
    conflicts: &Vec<crate::check::Conflict>,
    recorded_at_unix_nanos: u128,
) -> (r: Result<crate::evidence::Evidence, crate::adr::Error>)
    ensures
        r is Ok <==> inputs_available(*obligation, inputs@, contents@),
        r matches Ok(e) ==> {
            &&& current_fingerprints(*obligation, inputs@, contents@, e.inputs@)
            &&& e.id.0@ == "pending"@
            &&& e.obligation.0@ == obligation.id.0@
            &&& e.backend@ == "z3"@
            &&& e.backend_version@ == solver_version@
            &&& e.configuration_sha256@ == solver_configuration(timeout_ms)
            &&& e.result_at_execution == status
            &&& e.recorded_at_unix_nanos == recorded_at_unix_nanos
            &&& conflict_names(conflicts@, e.diagnostics@)
        },
{
    let rel = crate::loading::relevant_semantic_inputs(&obligation.model, inputs);
    let fr = fingerprint_semantic_files(&rel, contents);
    proof {
        crate::readback::lemma_available_iff(*obligation, inputs@, contents@, rel@, fr is Ok);
    }
    let mut fps = match fr {
        Ok(f) => f,
        Err(e) => return Err(e),
    };
    let ghost fps0 = fps@;
    let text = crate::smt::obligation_to_smt(obligation);
    let f = crate::evidence::fingerprint_bytes("generated:effective.smt2", text.as_str().as_bytes());
    fps.push(f);
    proof {
        assert(smt_text_of(*obligation, text@));
        assert(smt_fingerprint(f, text@));
        let u = choose|u: Seq<SemanticInput>| #[trigger] inputs_of(input_pairs(rel@), u) && fingerprinted(u, contents@, fps0);
        assert(current_fingerprints(*obligation, inputs@, contents@, fps@));
    }
    let mut flags: Vec<String> = Vec::new();
    flags.push(crate::text::own("smt.core.minimize=true"));
    let configuration_sha256 = crate::evidence::configuration_hash(timeout_ms, &flags);
    proof {
        assert(crate::adr::strs(flags@) =~= seq!["smt.core.minimize=true"@]);
    }
    let diagnostics = conflict_diagnostics(conflicts);
    Ok(crate::evidence::Evidence {
        id: crate::project::EvidenceId(crate::text::own("pending")),
        obligation: crate::project::ProofObligationId(crate::text::own(obligation.id.0.as_str())),
        backend: crate::text::own("z3"),
        backend_version: crate::text::own(solver_version),
        configuration_sha256,
        inputs: fps,
        result_at_execution: status,
        recorded_at_unix_nanos,
        diagnostics,
    })
}

/// What a report holds of a check of `ob` whose backend answered `res`, over the
/// current inputs `inputs` and their bytes `contents`.
pub open spec fn reports_answer(
    rep: CheckReport,
    ob: crate::lowering::RelationalProofObligation,
    res: crate::check::BackendResult,
    inputs: Seq<SemanticInput>,
    contents: Seq<(String, Vec<u8>)>,
    recorded_at_unix_nanos: u128,
) -> bool {
    &&& rep.obligation == ob
    &&& rep.verdict == crate::check::adjusted(ob.model, res.verdict)
    &&& rep.evidence_status == crate::check::status_of(rep.verdict)
    &&& forall|i: int, j: int| #![trigger rep.conflicts@[i], rep.conflicts@[j]] 0 <= i < j < rep.conflicts@.len()
        ==> crate::check::conflict_le(rep.conflicts@[i]@, rep.conflicts@[j]@)
    &&& exists|g: Seq<crate::check::Conflict>| #[trigger] crate::check::conflict_views(g) == crate::check::core_conflicts(res.core@, ob.model)
        && rep.conflicts@.to_multiset() == g.to_multiset()
    &&& rep.solver@ == res.solver_version@
    &&& rep.elapsed_ms == res.elapsed_ms
    &&& current_fingerprints(ob, inputs, contents, rep.evidence.inputs@)
    &&& rep.evidence.id.0@ == "pending"@
    &&& rep.evidence.obligation.0@ == ob.id.0@
    &&& rep.evidence.backend@ == "z3"@
    &&& rep.evidence.backend_version@ == res.solver_version@
    &&& rep.evidence.configuration_sha256@ == solver_configuration(res.timeout_ms)
    &&& rep.evidence.result_at_execution == rep.evidence_status
    &&& rep.evidence.recorded_at_unix_nanos == recorded_at_unix_nanos
    &&& conflict_names(rep.conflicts@, rep.evidence.diagnostics@)
}

/// `r` is what a check of `ob` makes of the backend's answer `outcome`: a backend
/// error returned as it is, otherwise a report exactly when every relevant input has
/// bytes, holding the answer as `reports_answer` reads it.
pub open spec fn finished(
    roots: VerificationRoots,
    ob: crate::lowering::RelationalProofObligation,
    inputs: Seq<SemanticInput>,
    contents: Seq<(String, Vec<u8>)>,
    outcome: Result<crate::check::BackendResult, crate::adr::Error>,
    recorded_at_unix_nanos: u128,
    r: Result<CheckReport, crate::adr::Error>,
) -> bool {
    &&& (outcome matches Err(e) ==> r == Err::<CheckReport, crate::adr::Error>(e))
    &&& (outcome is Ok ==> (r is Ok <==> inputs_available(ob, inputs, contents)))
    &&& (r matches Ok(rep) ==> outcome matches Ok(res) && reports_answer(rep, ob, res, inputs, contents, recorded_at_unix_nanos)
        && rep.roots.project_root == roots.project_root && rep.roots.specification_root == roots.specification_root
        && rep.roots.state_root == roots.state_root)
}

/// Builds the report of a check from the backend's answer: a backend error is
/// returned as it is, with no report; otherwise the report holds the answer as
/// `reports_answer` reads it, with the evidence record over the fingerprints of the
/// relevant inputs and the problem, and fails only when an input has no bytes given.
pub fn finish_check(
    roots: &VerificationRoots,
    obligation: crate::lowering::RelationalProofObligation,
    inputs: &Vec<SemanticInput>,
    contents: &Vec<(String, Vec<u8>)>,
    outcome: Result<crate::check::BackendResult, crate::adr::Error>,
    recorded_at_unix_nanos: u128,
) -> (r: Result<CheckReport, crate::adr::Error>)
    requires
        crate::keyed::strictly_sorted(obligation.model.constraints@),
        crate::keyed::strictly_sorted(obligation.model.facts@),
    ensures
        finished(*roots, obligation, inputs@, contents@, outcome, recorded_at_unix_nanos, r),
{
    proof {
        reveal_strlit("effective.smt2");
        reveal_strlit("proof-ledger.json");
    }
    let result = match outcome {
        Ok(x) => x,
        Err(e) => return Err(e),
    };
    let smt_path = crate::roots::join_exec(roots.state_root.as_str(), "effective.smt2");
    let ledger_path = crate::roots::join_exec(roots.state_root.as_str(), "proof-ledger.json");
    let run = crate::check::check_run_of(obligation, result);
    let crate::check::CheckRun { obligation, result, verdict, evidence_status, conflicts } = run;
    let evidence = match check_evidence(&obligation, inputs, contents, result.solver_version.as_str(), result.timeout_ms, evidence_status, &conflicts, recorded_at_unix_nanos) {
        Ok(e) => e,
        Err(e) => return Err(e),
    };
    let report = CheckReport {
        roots: roots.view(),
        verdict,
        evidence_status,
        conflicts,
        solver: crate::text::own(result.solver_version.as_str()),
        elapsed_ms: result.elapsed_ms,
        smt_artifact: smt_path,
        ledger_artifact: ledger_path,
        evidence,
        obligation,
    };
    Ok(report)
}

/// What a report of a check run under `roots` holds: the documents parse into ADRs
/// that assemble into a model whose consistency obligation the backend answered,
/// read as `reports_answer` reads it.
pub open spec fn check_reported(
    roots: VerificationRoots,
    documents: Seq<(String, String)>,
    cargo: Option<(CargoMetadata, Vec<(String, String)>)>,
    contents: Seq<(String, Vec<u8>)>,
    recorded_at_unix_nanos: u128,
    rep: CheckReport,
) -> bool {
    &&& exists|adrs: Seq<Adr>, m: ProjectModel, inputs: Seq<SemanticInput>, res: crate::check::BackendResult|
        #[trigger] crate::document::read_from(documents, adrs) && #[trigger] assembled(roots, adrs, cargo, m, inputs)
        && crate::document::parsed_as(documents, adrs)
        && crate::lowering::is_obligation_of(m, rep.obligation)
        && inputs_available(rep.obligation, inputs, contents)
        && #[trigger] reports_answer(rep, rep.obligation, res, inputs, contents, recorded_at_unix_nanos)
    &&& rep.roots.project_root == roots.project_root
    &&& rep.roots.specification_root == roots.specification_root
    &&& rep.roots.state_root == roots.state_root
}

/// Loads the project, builds its consistency obligation, has the backend check it
/// (writing the problem to `effective.smt2` under the state root) and builds the
/// report as `finish_check` does. Fails when loading fails (exactly when the
/// documents do not load), when the backend fails, or when an input has no bytes.
pub fn run_check_with_roots<B: crate::check::ConstraintBackend>(
    roots: &VerificationRoots,
    documents: &Vec<(String, String)>,
    cargo: Option<(CargoMetadata, Vec<(String, String)>)>,
    contents: &Vec<(String, Vec<u8>)>,
    backend: &B,
    recorded_at_unix_nanos: u128,
) -> (r: Result<CheckReport, crate::adr::Error>)
    ensures
        (exists|i: int| 0 <= i < documents@.len() && !crate::document::has_front_matter((#[trigger] documents@[i]).1@)) ==> r is Err,
        !loads(documents@) ==> r is Err,
        loads(documents@) ==> exists|adrs: Seq<Adr>, m: ProjectModel, inputs: Seq<SemanticInput>,
            ob: crate::lowering::RelationalProofObligation, outcome: Result<crate::check::BackendResult, crate::adr::Error>|
            #[trigger] crate::document::parsed_as(documents@, adrs) && #[trigger] assembled(*roots, adrs, cargo, m, inputs)
            && crate::lowering::is_obligation_of(m, ob) && #[trigger] finished(*roots, ob, inputs, contents@, outcome, recorded_at_unix_nanos, r)
            && (inputs_given(*roots, documents@, cargo, contents@) ==> (r is Ok <==> outcome is Ok)),
        r matches Ok(rep) ==> check_reported(*roots, documents@, cargo, contents@, recorded_at_unix_nanos, rep),
{
    proof {
        reveal_strlit("effective.smt2");
    }
    let smt_path = crate::roots::join_exec(roots.state_root.as_str(), "effective.smt2");
    let (model, inputs) = match load_project_model_with_roots(roots, documents, cargo) {
        Ok(x) => x,
        Err(e) => return Err(e),
    };
    let ghost mv = model;
    let obligation = crate::lowering::relational_obligation(model);
    let ghost ob = obligation;
    let outcome = backend.check(&obligation, smt_path.as_str());
    let ghost oc = outcome;
    let r = finish_check(roots, obligation, &inputs, contents, outcome, recorded_at_unix_nanos);
    proof {
        let adrs = choose|adrs: Seq<Adr>| #[trigger] crate::document::read_from(documents@, adrs)
            && crate::document::parsed_as(documents@, adrs) && assembles(adrs) && assembled(*roots, adrs, cargo, mv, inputs@);
        assert(crate::document::parsed_as(documents@, adrs) && assembled(*roots, adrs, cargo, mv, inputs@)
            && crate::lowering::is_obligation_of(mv, ob) && finished(*roots, ob, inputs@, contents@, oc, recorded_at_unix_nanos, r));
        if inputs_given(*roots, documents@, cargo, contents@) {
            assert(inputs_available(ob, inputs@, contents@));
        }
    }
    r
}

/// `run_check_with_roots` for a project whose specification and workspace share
/// `root`, with `artifacts` as the state root.
pub fn run_check<B: crate::check::ConstraintBackend>(
    root: &str,
    artifacts: &str,
    cwd: &str,
    documents: &Vec<(String, String)>,
    cargo: Option<(CargoMetadata, Vec<(String, String)>)>,
    contents: &Vec<(String, Vec<u8>)>,
    backend: &B,
    recorded_at_unix_nanos: u128,
) -> (r: Result<CheckReport, crate::adr::Error>)
    ensures
        (exists|i: int| 0 <= i < documents@.len() && !crate::document::has_front_matter((#[trigger] documents@[i]).1@)) ==> r is Err,
        !loads(documents@) ==> r is Err,
        r matches Ok(rep) ==> exists|roots: VerificationRoots| #[trigger] crate::roots::roots_of(roots, root@, root@, artifacts@, cwd@)
            && check_reported(roots, documents@, cargo, contents@, recorded_at_unix_nanos, rep),
        loads(documents@) ==> exists|roots: VerificationRoots, adrs: Seq<Adr>, m: ProjectModel, inputs: Seq<SemanticInput>,
            ob: crate::lowering::RelationalProofObligation, outcome: Result<crate::check::BackendResult, crate::adr::Error>|
            #[trigger] crate::roots::roots_of(roots, root@, root@, artifacts@, cwd@)
            && #[trigger] crate::document::parsed_as(documents@, adrs) && #[trigger] assembled(roots, adrs, cargo, m, inputs)
            && crate::lowering::is_obligation_of(m, ob) && #[trigger] finished(roots, ob, inputs, contents@, outcome, recorded_at_unix_nanos, r)
            && (inputs_given(roots, documents@, cargo, contents@) ==> (r is Ok <==> outcome is Ok)),
{
    let roots = VerificationRoots::legacy(root, artifacts, cwd);
    run_check_with_roots(&roots, documents, cargo, contents, backend, recorded_at_unix_nanos)
}

} // verus!
