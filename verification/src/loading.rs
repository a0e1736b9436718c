//! Assembling the project model from the specification and the fact providers, and
//! choosing the inputs whose content a verification result depends on.
use vstd::prelude::*;
use crate::adr::{SExpr, strs};
use crate::keyed::{Keyed, has_key, set_has, strictly_sorted, upsert};
use crate::project::{
    Artifact, ArtifactId, Decision, GraphEdge, GraphNode, IntentConstraint, IntentDeclaration, LinkKind, ProjectFact,
    ProjectModel, Provenance, RelationalFormula, SourceSpan,
};
use crate::roots::SemanticInput;
use crate::text::{chars_of, occurs_at, occurs_at_exec, str_eq};

verus! {

// ---------------------------------------------------------------------------
// Relations a formula uses
// ---------------------------------------------------------------------------

/// `f` has an atom of relation `n`.
pub open spec fn mentions_relation(f: SExpr, n: Seq<char>) -> bool
    decreases f,
{
    match f {
        SExpr::Call(name, _) => name == n,
        SExpr::Not(x) => mentions_relation(*x, n),
        SExpr::And(a, b) => mentions_relation(*a, n) || mentions_relation(*b, n),
        SExpr::Or(a, b) => mentions_relation(*a, n) || mentions_relation(*b, n),
        SExpr::Implies(a, b) => mentions_relation(*a, n) || mentions_relation(*b, n),
        SExpr::Forall { guard, body, .. } => (guard matches Some(g) && mentions_relation(*g, n)) || mentions_relation(*body, n),
        SExpr::Exists { guard, body, .. } => (guard matches Some(g) && mentions_relation(*g, n)) || mentions_relation(*body, n),
        _ => false,
    }
}

fn add_relations(f: &RelationalFormula, out: &mut Vec<String>)
    requires
        strictly_sorted(old(out)@),
    ensures
        strictly_sorted(final(out)@),
        forall|n: Seq<char>| #[trigger] set_has(final(out)@, n) <==> (set_has(old(out)@, n) || mentions_relation(f@, n)),
    decreases f,
{
    match f {
        RelationalFormula::Relation(name, _) => {
            let ghost o0 = out@;
            upsert(out, name.clone());
            proof {
                assert forall|n: Seq<char>| #[trigger] set_has(out@, n) <==> (set_has(o0, n) || mentions_relation(f@, n)) by {
                    assert(has_key(out@, n) <==> (has_key(o0, n) || n == name@));
                    lemma_set_has_key(out@, n);
                    lemma_set_has_key(o0, n);
                };
            }
        },
        RelationalFormula::Not(x) => add_relations(x, out),
        RelationalFormula::And(a, b) | RelationalFormula::Or(a, b) | RelationalFormula::Implies(a, b) => {
            add_relations(a, out);
            add_relations(b, out);
        },
        RelationalFormula::Forall { guard, body, .. } | RelationalFormula::Exists { guard, body, .. } => {
            match guard {
                Some(g) => add_relations(g, out),
                None => {},
            }
            add_relations(body, out);
        },
        _ => {},
    }
}

pub proof fn lemma_set_has_key(s: Seq<String>, n: Seq<char>)
    ensures
        set_has(s, n) <==> has_key(s, n),
{
    if set_has(s, n) {
        let k = choose|k: int| 0 <= k < s.len() && #[trigger] s[k]@ == n;
        assert(s[k].key() == n);
    }
    if has_key(s, n) {
        let k = choose|k: int| 0 <= k < s.len() && #[trigger] s[k].key() == n;
        assert(s[k]@ == n);
    }
}

/// The relations a formula uses, as an ordered set.
pub fn relations_in_formula(formula: &RelationalFormula) -> (r: Vec<String>)
    ensures
        strictly_sorted(r@),
        forall|n: Seq<char>| #[trigger] set_has(r@, n) <==> mentions_relation(formula@, n),
{
    let mut out: Vec<String> = Vec::new();
    add_relations(formula, &mut out);
    out
}

// ---------------------------------------------------------------------------
// Relevant inputs
// ---------------------------------------------------------------------------

/// Some constraint of the model uses relation `n`.
pub open spec fn used_relation(m: ProjectModel, n: Seq<char>) -> bool {
    exists|i: int| 0 <= i < m.constraints@.len() && mentions_relation((#[trigger] m.constraints@[i]).formula@, n)
}

/// The model relies on a PostgreSQL migration claim for a relation it uses.
pub open spec fn uses_sql(m: ProjectModel) -> bool {
    exists|i: int|
        0 <= i < m.fact_coverage@.len() && (#[trigger] m.fact_coverage@[i]).provider@ == "postgres_migrations"@
            && used_relation(m, m.fact_coverage@[i].relation@)
}

/// A source the result depends on: a constraint's source, or the source of a fact
/// that an edge marks relevant to a constraint.
pub open spec fn relevant_identity(m: ProjectModel, x: Seq<char>) -> bool {
    ||| exists|i: int| 0 <= i < m.constraints@.len() && (#[trigger] m.constraints@[i]).provenance.source@ == x
    ||| exists|e: int, f: int|
        #![trigger m.edges@[e], m.facts@[f]]
        0 <= e < m.edges@.len() && 0 <= f < m.facts@.len() && m.edges@[e].kind == LinkKind::RelevantTo
            && (m.edges@[e].from matches GraphNode::Fact(id) && id.0@ == m.facts@[f].id.0@)
            && m.facts@[f].provenance.source@ == x
}

pub open spec fn is_migration_sql(x: Seq<char>) -> bool {
    occurs_at(x, 0, "project:migrations/"@) && x.len() >= 4 && x.subrange(x.len() - 4, x.len() as int) == ".sql"@
}

/// An input is selected when its identity is relevant, or when it is a migration
/// file and the model relies on migration facts.
pub open spec fn selected_input(m: ProjectModel, s: SemanticInput) -> bool {
    relevant_identity(m, s.identity@) || (uses_sql(m) && is_migration_sql(s.identity@))
}

impl Keyed for SemanticInput {
    open spec fn key(&self) -> Seq<char> {
        self.identity@
    }

    fn key_string(&self) -> (r: String) {
        self.identity.clone()
    }
}

/// The inputs to fingerprint: the selected ones (all, when none is selected), one
/// per identity (the first), in identity order.
pub open spec fn relevant_inputs_of(m: ProjectModel, fallback: Seq<SemanticInput>, r: Seq<SemanticInput>) -> bool {
    let any = exists|i: int| 0 <= i < fallback.len() && selected_input(m, #[trigger] fallback[i]);
    let chosen = |s: SemanticInput| !any || selected_input(m, s);
    &&& strictly_sorted(r)
    &&& forall|k: Seq<char>| #[trigger] has_key(r, k) <==> exists|i: int| 0 <= i < fallback.len() && chosen(#[trigger] fallback[i]) && fallback[i].identity@ == k
    &&& forall|x: SemanticInput| #[trigger] r.contains(x) ==> exists|i: int| 0 <= i < fallback.len() && fallback[i] == x && chosen(x)
        && forall|j: int| 0 <= j < i && chosen(#[trigger] fallback[j]) ==> fallback[j].identity@ != x.identity@
}

pub(crate) fn used_relations(m: &ProjectModel) -> (r: Vec<String>)
    ensures
        forall|n: Seq<char>| #[trigger] set_has(r@, n) <==> used_relation(*m, n),
{
    let mut out: Vec<String> = Vec::new();
    let mut i: usize = 0;
    while i < m.constraints.len()
        invariant
            i <= m.constraints@.len(),
            strictly_sorted(out@),
            forall|n: Seq<char>| #[trigger] set_has(out@, n) <==> exists|j: int| 0 <= j < i && mentions_relation((#[trigger] m.constraints@[j]).formula@, n),
        decreases m.constraints.len() - i,
    {
        let ghost o0 = out@;
        add_relations(&m.constraints[i].formula, &mut out);
        proof {
            assert forall|n: Seq<char>| #[trigger] set_has(out@, n) <==> exists|j: int| 0 <= j < i + 1 && mentions_relation((#[trigger] m.constraints@[j]).formula@, n) by {
                if exists|j: int| 0 <= j < i + 1 && mentions_relation((#[trigger] m.constraints@[j]).formula@, n) {
                    let j = choose|j: int| 0 <= j < i + 1 && mentions_relation((#[trigger] m.constraints@[j]).formula@, n);
                    if j < i {
                        assert(set_has(o0, n));
                    }
                }
            };
        }
        i = i + 1;
    }
    out
}

fn uses_sql_exec(m: &ProjectModel, used: &Vec<String>) -> (r: bool)
    requires
        forall|n: Seq<char>| #[trigger] set_has(used@, n) <==> used_relation(*m, n),
    ensures
        r == uses_sql(*m),
{
    let mut i: usize = 0;
    while i < m.fact_coverage.len()
        invariant
            i <= m.fact_coverage@.len(),
            forall|n: Seq<char>| #[trigger] set_has(used@, n) <==> used_relation(*m, n),
            forall|j: int| 0 <= j < i ==> !((#[trigger] m.fact_coverage@[j]).provider@ == "postgres_migrations"@ && used_relation(*m, m.fact_coverage@[j].relation@)),
        decreases m.fact_coverage.len() - i,
    {
        let c = &m.fact_coverage[i];
        if str_eq(c.provider.as_str(), "postgres_migrations") && crate::keyed::contains_str(used, c.relation.as_str()) {
            return true;
        }
        i = i + 1;
    }
    false
}

fn relevant_identity_exec(m: &ProjectModel, x: &str) -> (r: bool)
    ensures
        r == relevant_identity(*m, x@),
{
    let mut i: usize = 0;
    while i < m.constraints.len()
        invariant
            i <= m.constraints@.len(),
            forall|j: int| 0 <= j < i ==> (#[trigger] m.constraints@[j]).provenance.source@ != x@,
        decreases m.constraints.len() - i,
    {
        if str_eq(m.constraints[i].provenance.source.as_str(), x) {
            return true;
        }
        i = i + 1;
    }
    let mut e: usize = 0;
    while e < m.edges.len()
        invariant
            e <= m.edges@.len(),
            forall|j: int| 0 <= j < m.constraints@.len() ==> (#[trigger] m.constraints@[j]).provenance.source@ != x@,
            forall|q: int, f: int|
                #![trigger m.edges@[q], m.facts@[f]]
                0 <= q < e && 0 <= f < m.facts@.len() ==> !(m.edges@[q].kind == LinkKind::RelevantTo
                    && (m.edges@[q].from matches GraphNode::Fact(id) && id.0@ == m.facts@[f].id.0@)
                    && m.facts@[f].provenance.source@ == x@),
        decreases m.edges.len() - e,
    {
        let edge = &m.edges[e];
        if edge.kind == LinkKind::RelevantTo {
            match &edge.from {
                GraphNode::Fact(id) => {
                    let mut f: usize = 0;
                    while f < m.facts.len()
                        invariant
                            e < m.edges@.len(),
                            f <= m.facts@.len(),
                            m.edges@[e as int] == *edge,
                            edge.kind == LinkKind::RelevantTo,
                            edge.from == GraphNode::Fact(*id),
                            forall|q: int| 0 <= q < f ==> !(id.0@ == (#[trigger] m.facts@[q]).id.0@ && m.facts@[q].provenance.source@ == x@),
                        decreases m.facts.len() - f,
                    {
                        if str_eq(m.facts[f].id.0.as_str(), id.0.as_str()) && str_eq(m.facts[f].provenance.source.as_str(), x) {
                            proof {
                                assert(m.edges@[e as int].from matches GraphNode::Fact(i2) && i2.0@ == m.facts@[f as int].id.0@);
                            }
                            return true;
                        }
                        f = f + 1;
                    }
                },
                _ => {},
            }
        }
        e = e + 1;
    }
    false
}

fn ends_with_sql(x: &str) -> (r: bool)
    ensures
        r == (x@.len() >= 4 && x@.subrange(x@.len() - 4, x@.len() as int) == ".sql"@),
{
    proof {
        reveal_strlit(".sql");
    }
    crate::text::ends_with(x, ".sql")
}

fn selected_exec(m: &ProjectModel, sql: bool, s: &SemanticInput) -> (r: bool)
    requires
        sql == uses_sql(*m),
    ensures
        r == selected_input(*m, *s),
{
    if relevant_identity_exec(m, s.identity.as_str()) {
        return true;
    }
    if !sql {
        return false;
    }
    let c = chars_of(s.identity.as_str());
    occurs_at_exec(&c, 0, "project:migrations/") && ends_with_sql(s.identity.as_str())
}

/// The inputs a verification result over `model` depends on.
pub fn relevant_semantic_inputs(model: &ProjectModel, fallback: &Vec<SemanticInput>) -> (r: Vec<SemanticInput>)
    ensures
        relevant_inputs_of(*model, fallback@, r@),
{
    let used = used_relations(model);
    let sql = uses_sql_exec(model, &used);
    let mut any = false;
    let mut i: usize = 0;
    while i < fallback.len()
        invariant
            i <= fallback@.len(),
            sql == uses_sql(*model),
            any == exists|j: int| 0 <= j < i && selected_input(*model, #[trigger] fallback@[j]),
        decreases fallback.len() - i,
    {
        if selected_exec(model, sql, &fallback[i]) {
            any = true;
        }
        i = i + 1;
    }
    let ghost chosen = |s: SemanticInput| !any || selected_input(*model, s);
    let mut out: Vec<SemanticInput> = Vec::new();
    let mut i: usize = 0;
    while i < fallback.len()
        invariant
            i <= fallback@.len(),
            sql == uses_sql(*model),
            chosen == |s: SemanticInput| !any || selected_input(*model, s),
            strictly_sorted(out@),
            forall|k: Seq<char>| #[trigger] has_key(out@, k) <==> exists|q: int| 0 <= q < i && chosen(#[trigger] fallback@[q]) && fallback@[q].identity@ == k,
            forall|x: SemanticInput| #[trigger] out@.contains(x) ==> exists|q: int| 0 <= q < i && fallback@[q] == x && chosen(x)
                && forall|j: int| 0 <= j < q && chosen(#[trigger] fallback@[j]) ==> fallback@[j].identity@ != x.identity@,
        decreases fallback.len() - i,
    {
        let s = &fallback[i];
        let take = !any || selected_exec(model, sql, s);
        if take && crate::keyed::find_key(&out, s.identity.as_str()).is_none() {
            let ghost o0 = out@;
            let c = s.clone();
            upsert(&mut out, c);
            proof {
                assert forall|x: SemanticInput| #[trigger] out@.contains(x) implies exists|q: int| 0 <= q < i + 1 && fallback@[q] == x && chosen(x)
                    && forall|j: int| 0 <= j < q && chosen(#[trigger] fallback@[j]) ==> fallback@[j].identity@ != x.identity@ by {
                    if x == c {
                        assert(fallback@[i as int] == x);
                        assert forall|j: int| 0 <= j < i && chosen(#[trigger] fallback@[j]) implies fallback@[j].identity@ != x.identity@ by {
                            if fallback@[j].identity@ == x.identity@ {
                                assert(has_key(o0, x.identity@));
                            }
                        };
                    }
                };
            }
        }
        i = i + 1;
    }
    proof {
        assert(any == exists|j: int| 0 <= j < fallback@.len() && selected_input(*model, #[trigger] fallback@[j]));
    }
    out
}


// ---------------------------------------------------------------------------
// Logical sources
// ---------------------------------------------------------------------------

pub open spec fn forward_slashes(s: Seq<char>) -> Seq<char> {
    s.map_values(|c: char| if c == '\\' { '/' } else { c })
}

/// `namespace:` and the path relative to `root` (the path itself when it is not
/// below `root`), with backslashes turned into slashes.
pub open spec fn logical(namespace: Seq<char>, root: Seq<char>, path: Seq<char>) -> Seq<char> {
    namespace + ":"@ + forward_slashes(
        match crate::roots::below(root, path) {
            Some(rest) => crate::roots::join_slash(rest),
            None => path,
        },
    )
}

fn forward_slashes_exec(s: &str) -> (r: String)
    ensures
        r@ == forward_slashes(s@),
{
    let c = chars_of(s);
    let mut out: Vec<char> = Vec::new();
    let mut i: usize = 0;
    while i < c.len()
        invariant
            i <= c@.len(),
            c@ == s@,
            out@ == forward_slashes(c@.take(i as int)),
        decreases c.len() - i,
    {
        let ch = c[i];
        out.push(if ch == '\\' { '/' } else { ch });
        proof {
            assert(forward_slashes(c@.take(i + 1)) =~= forward_slashes(c@.take(i as int)).push(if ch == '\\' { '/' } else { ch }));
        }
        i = i + 1;
    }
    proof {
        assert(c@.take(c@.len() as int) =~= c@);
    }
    crate::text::string_from_chars(out.as_slice())
}

fn logical_exec(namespace: &str, root: &str, path: &str) -> (r: String)
    ensures
        r@ == logical(namespace@, root@, path@),
{
    let relative = match crate::roots::below_exec(root, path) {
        Some(rest) => crate::roots::join_slash_exec(&rest),
        None => crate::text::own(path),
    };
    let f = forward_slashes_exec(relative.as_str());
    crate::text::cat3(namespace, ":", f.as_str())
}


// ---------------------------------------------------------------------------
// Namespacing sources
// ---------------------------------------------------------------------------

/// The same provenance, its source made logical (and a span's file with it).
pub open spec fn renamed_provenance(old: Provenance, new: Provenance, ns: Seq<char>, root: Seq<char>, with_span: bool) -> bool {
    &&& new.kind == old.kind
    &&& new.source@ == logical(ns, root, old.source@)
    &&& new.extractor == old.extractor
    &&& if with_span {
        match old.span {
            Some(sp) => new.span matches Some(ns2) && ns2.filename@ == new.source@ && ns2.line == sp.line && ns2.column == sp.column,
            None => new.span is None,
        }
    } else {
        new.span == old.span
    }
}

/// The identifier an artifact gets: a Cargo package keeps its own, others take
/// their logical source.
pub open spec fn new_artifact_id(a: Artifact, ns: Seq<char>, root: Seq<char>) -> Seq<char> {
    if a.kind@ == "cargo_package"@ {
        a.id.0@
    } else {
        logical(ns, root, a.provenance.source@)
    }
}

pub open spec fn renamed_artifact(old: Artifact, new: Artifact, ns: Seq<char>, root: Seq<char>) -> bool {
    &&& new.id.0@ == new_artifact_id(old, ns, root)
    &&& new.kind == old.kind
    &&& renamed_provenance(old.provenance, new.provenance, ns, root, false)
}

/// A graph node after renaming: an artifact of `arts` becomes its new identifier.
pub open spec fn renamed_node(arts: Seq<Artifact>, ns: Seq<char>, root: Seq<char>, old: GraphNode, new: GraphNode) -> bool {
    match old {
        GraphNode::Artifact(id) => if has_key(arts, id.0@) {
            new matches GraphNode::Artifact(n) && exists|i: int| 0 <= i < arts.len() && (#[trigger] arts[i]).id.0@ == id.0@ && n.0@ == new_artifact_id(arts[i], ns, root)
        } else {
            new == old
        },
        _ => new == old,
    }
}

/// `new` is `old` with every source under `root` made a logical `ns:` identity.
pub open spec fn namespaced(old: ProjectModel, new: ProjectModel, ns: Seq<char>, root: Seq<char>) -> bool {
    &&& new.decisions@.len() == old.decisions@.len()
    &&& forall|i: int| 0 <= i < old.decisions@.len() ==> {
        let (a, b) = (#[trigger] old.decisions@[i], new.decisions@[i]);
        b.id == a.id && b.status == a.status && crate::project::same_applicability(b.applicability, a.applicability) && renamed_provenance(a.provenance, b.provenance, ns, root, false)
    }
    &&& new.constraints@.len() == old.constraints@.len()
    &&& forall|i: int| 0 <= i < old.constraints@.len() ==> {
        let (a, b) = (#[trigger] old.constraints@[i], new.constraints@[i]);
        b.id == a.id && b.decision == a.decision && b.description == a.description && b.formula@ == a.formula@
            && crate::project::same_applicability(b.applicability, a.applicability) && renamed_provenance(a.provenance, b.provenance, ns, root, true)
    }
    &&& new.facts@.len() == old.facts@.len()
    &&& forall|i: int| 0 <= i < old.facts@.len() ==> {
        let (a, b) = (#[trigger] old.facts@[i], new.facts@[i]);
        b.id == a.id && b.relation == a.relation && b.arguments@ == a.arguments@ && b.value == a.value
            && b.attributes@ == a.attributes@ && renamed_provenance(a.provenance, b.provenance, ns, root, true)
    }
    &&& strictly_sorted(new.artifacts@)
    &&& forall|k: Seq<char>| #[trigger] has_key(new.artifacts@, k) <==> exists|i: int| 0 <= i < old.artifacts@.len() && new_artifact_id(#[trigger] old.artifacts@[i], ns, root) == k
    &&& forall|x: Artifact| #[trigger] new.artifacts@.contains(x) ==> exists|i: int| 0 <= i < old.artifacts@.len() && renamed_artifact(#[trigger] old.artifacts@[i], x, ns, root)
    &&& new.edges@.len() == old.edges@.len()
    &&& forall|i: int| 0 <= i < old.edges@.len() ==> {
        let (a, b) = (#[trigger] old.edges@[i], new.edges@[i]);
        b.kind == a.kind && renamed_node(old.artifacts@, ns, root, a.from, b.from) && renamed_node(old.artifacts@, ns, root, a.to, b.to)
    }
    &&& new.declarations == old.declarations
    &&& new.fact_coverage == old.fact_coverage
}

fn rename_provenance(p: &Provenance, ns: &str, root: &str, with_span: bool) -> (r: Provenance)
    ensures
        renamed_provenance(*p, r, ns@, root@, with_span),
{
    let source = logical_exec(ns, root, p.source.as_str());
    let span = if with_span {
        match &p.span {
            Some(sp) => Some(SourceSpan { filename: source.clone(), line: sp.line, column: sp.column }),
            None => None,
        }
    } else {
        match &p.span {
            Some(sp) => Some(sp.clone()),
            None => None,
        }
    };
    let extractor = match &p.extractor {
        Some(e) => Some(e.clone()),
        None => None,
    };
    Provenance { kind: p.kind, source, span, extractor }
}

fn new_artifact_id_exec(a: &Artifact, ns: &str, root: &str) -> (r: String)
    ensures
        r@ == new_artifact_id(*a, ns@, root@),
{
    if str_eq(a.kind.as_str(), "cargo_package") {
        a.id.0.clone()
    } else {
        logical_exec(ns, root, a.provenance.source.as_str())
    }
}

fn rename_node(arts: &Vec<Artifact>, ns: &str, root: &str, n: &GraphNode) -> (r: GraphNode)
    ensures
        renamed_node(arts@, ns@, root@, *n, r),
{
    match n {
        GraphNode::Artifact(id) => match crate::keyed::find_key(arts, id.0.as_str()) {
            Some(i) => GraphNode::Artifact(ArtifactId(new_artifact_id_exec(&arts[i], ns, root))),
            None => n.clone(),
        },
        _ => n.clone(),
    }
}

/// Makes every source of the model a logical identity under `namespace`, relative
/// to `root`; artifacts are re-keyed (Cargo packages keep their identifiers) and
/// edges follow them.
pub fn namespace_model_artifacts(model: &mut ProjectModel, namespace: &str, root: &str)
    ensures
        namespaced(*old(model), *final(model), namespace@, root@),
{
    let ghost m0 = *model;
    let mut decisions: Vec<Decision> = Vec::new();
    let mut i: usize = 0;
    while i < model.decisions.len()
        invariant
            i <= m0.decisions@.len(),
            model.decisions == m0.decisions,
            decisions@.len() == i,
            forall|j: int| 0 <= j < i ==> {
                let (a, b) = (#[trigger] m0.decisions@[j], decisions@[j]);
                b.id == a.id && b.status == a.status && crate::project::same_applicability(b.applicability, a.applicability) && renamed_provenance(a.provenance, b.provenance, namespace@, root@, false)
            },
        decreases m0.decisions@.len() - i,
    {
        let d = &model.decisions[i];
        decisions.push(Decision {
            id: d.id.clone(),
            status: d.status.clone(),
            provenance: rename_provenance(&d.provenance, namespace, root, false),
            applicability: d.applicability.clone(),
        });
        i = i + 1;
    }
    let mut constraints: Vec<IntentConstraint> = Vec::new();
    let mut i: usize = 0;
    while i < model.constraints.len()
        invariant
            i <= m0.constraints@.len(),
            model.constraints == m0.constraints,
            constraints@.len() == i,
            forall|j: int| 0 <= j < i ==> {
                let (a, b) = (#[trigger] m0.constraints@[j], constraints@[j]);
                b.id == a.id && b.decision == a.decision && b.description == a.description && b.formula@ == a.formula@
                    && crate::project::same_applicability(b.applicability, a.applicability) && renamed_provenance(a.provenance, b.provenance, namespace@, root@, true)
            },
        decreases m0.constraints@.len() - i,
    {
        let c = &model.constraints[i];
        constraints.push(IntentConstraint {
            id: c.id.clone(),
            decision: c.decision.clone(),
            description: c.description.clone(),
            formula: c.formula.clone(),
            provenance: rename_provenance(&c.provenance, namespace, root, true),
            applicability: c.applicability.clone(),
        });
        i = i + 1;
    }
    let mut facts: Vec<ProjectFact> = Vec::new();
    let mut i: usize = 0;
    while i < model.facts.len()
        invariant
            i <= m0.facts@.len(),
            model.facts == m0.facts,
            facts@.len() == i,
            forall|j: int| 0 <= j < i ==> {
                let (a, b) = (#[trigger] m0.facts@[j], facts@[j]);
                b.id == a.id && b.relation == a.relation && b.arguments@ == a.arguments@ && b.value == a.value
                    && b.attributes@ == a.attributes@ && renamed_provenance(a.provenance, b.provenance, namespace@, root@, true)
            },
        decreases m0.facts@.len() - i,
    {
        let f = &model.facts[i];
        facts.push(ProjectFact {
            id: f.id.clone(),
            relation: f.relation.clone(),
            arguments: f.arguments.clone(),
            value: f.value,
            attributes: crate::project::clone_pairs(&f.attributes),
            provenance: rename_provenance(&f.provenance, namespace, root, true),
        });
        i = i + 1;
    }
    let mut renamed: Vec<Artifact> = Vec::new();
    let mut i: usize = 0;
    while i < model.artifacts.len()
        invariant
            i <= m0.artifacts@.len(),
            model.artifacts == m0.artifacts,
            renamed@.len() == i,
            forall|j: int| 0 <= j < i ==> renamed_artifact(#[trigger] m0.artifacts@[j], renamed@[j], namespace@, root@),
        decreases m0.artifacts@.len() - i,
    {
        let a = &model.artifacts[i];
        renamed.push(Artifact {
            id: ArtifactId(new_artifact_id_exec(a, namespace, root)),
            kind: a.kind.clone(),
            provenance: rename_provenance(&a.provenance, namespace, root, false),
        });
        i = i + 1;
    }
    let mut edges: Vec<GraphEdge> = Vec::new();
    let mut i: usize = 0;
    while i < model.edges.len()
        invariant
            i <= m0.edges@.len(),
            model.edges == m0.edges,
            model.artifacts == m0.artifacts,
            edges@.len() == i,
            forall|j: int| 0 <= j < i ==> {
                let (a, b) = (#[trigger] m0.edges@[j], edges@[j]);
                b.kind == a.kind && renamed_node(m0.artifacts@, namespace@, root@, a.from, b.from) && renamed_node(m0.artifacts@, namespace@, root@, a.to, b.to)
            },
        decreases m0.edges@.len() - i,
    {
        let e = &model.edges[i];
        edges.push(GraphEdge {
            from: rename_node(&model.artifacts, namespace, root, &e.from),
            kind: e.kind,
            to: rename_node(&model.artifacts, namespace, root, &e.to),
        });
        i = i + 1;
    }
    let ghost rn = renamed@;
    let mut artifacts: Vec<Artifact> = Vec::new();
    crate::keyed::upsert_all(&mut artifacts, renamed);
    proof {
        assert forall|k: Seq<char>| #[trigger] has_key(artifacts@, k) implies exists|i: int| 0 <= i < m0.artifacts@.len() && new_artifact_id(#[trigger] m0.artifacts@[i], namespace@, root@) == k by {
            let j = choose|j: int| 0 <= j < rn.len() && #[trigger] rn[j].key() == k;
            assert(renamed_artifact(m0.artifacts@[j], rn[j], namespace@, root@));
        };
        assert forall|k: Seq<char>| (exists|i: int| 0 <= i < m0.artifacts@.len() && new_artifact_id(#[trigger] m0.artifacts@[i], namespace@, root@) == k) implies #[trigger] has_key(artifacts@, k) by {
            let j = choose|i: int| 0 <= i < m0.artifacts@.len() && new_artifact_id(#[trigger] m0.artifacts@[i], namespace@, root@) == k;
            assert(rn[j].key() == k);
        };
        assert forall|x: Artifact| #[trigger] artifacts@.contains(x) implies exists|i: int| 0 <= i < m0.artifacts@.len() && renamed_artifact(#[trigger] m0.artifacts@[i], x, namespace@, root@) by {
            let j = choose|j: int| 0 <= j < rn.len() && rn[j] == x;
            assert(renamed_artifact(m0.artifacts@[j], rn[j], namespace@, root@));
        };
    }
    model.decisions = decisions;
    model.constraints = constraints;
    model.facts = facts;
    model.artifacts = artifacts;
    model.edges = edges;
}


// ---------------------------------------------------------------------------
// The package domain and closed-world dependency absence
// ---------------------------------------------------------------------------

/// `m` is an argument of some fact.
pub open spec fn fact_argument(facts: Seq<ProjectFact>, m: Seq<char>) -> bool {
    exists|i: int| 0 <= i < facts.len() && set_has((#[trigger] facts[i]).arguments@, m)
}

/// Entity members are ordered sets.
pub open spec fn members_sorted(ds: Seq<IntentDeclaration>) -> bool {
    forall|i: int| 0 <= i < ds.len() ==> (#[trigger] ds[i] matches IntentDeclaration::EntityType { members, .. } ==> strictly_sorted(members@))
}

/// `new` is `old` with every fact argument added to each `Package` entity type.
pub open spec fn enriched(old: Seq<IntentDeclaration>, new: Seq<IntentDeclaration>, facts: Seq<ProjectFact>) -> bool {
    &&& new.len() == old.len()
    &&& members_sorted(new)
    &&& forall|i: int| 0 <= i < old.len() ==> match #[trigger] old[i] {
        IntentDeclaration::EntityType { name, members } => if name@ == "Package"@ {
            new[i] matches IntentDeclaration::EntityType { name: n2, members: m2 } && n2@ == name@ && forall|m: Seq<char>| #[trigger] set_has(m2@, m) <==> (set_has(members@, m) || fact_argument(facts, m))
        } else {
            new[i]@ == old[i]@ && (new[i] matches IntentDeclaration::EntityType { members: m2, .. } && m2@ == members@)
        },
        _ => new[i]@ == old[i]@,
    }
}

fn add_fact_arguments(members: &mut Vec<String>, facts: &Vec<ProjectFact>)
    requires
        strictly_sorted(old(members)@),
    ensures
        strictly_sorted(final(members)@),
        forall|m: Seq<char>| #[trigger] set_has(final(members)@, m) <==> (set_has(old(members)@, m) || fact_argument(facts@, m)),
{
    let mut i: usize = 0;
    while i < facts.len()
        invariant
            i <= facts@.len(),
            strictly_sorted(members@),
            forall|m: Seq<char>| #[trigger] set_has(members@, m) <==> (set_has(old(members)@, m) || exists|j: int| 0 <= j < i && set_has((#[trigger] facts@[j]).arguments@, m)),
        decreases facts.len() - i,
    {
        let args = &facts[i].arguments;
        let ghost mi = members@;
        let mut k: usize = 0;
        while k < args.len()
            invariant
                k <= args@.len(),
                strictly_sorted(members@),
                forall|m: Seq<char>| #[trigger] set_has(members@, m) <==> (set_has(mi, m) || exists|q: int| 0 <= q < k && (#[trigger] args@[q])@ == m),
            decreases args.len() - k,
        {
            let ghost m0 = members@;
            upsert(members, args[k].clone());
            proof {
                assert forall|m: Seq<char>| #[trigger] set_has(members@, m) <==> (set_has(mi, m) || exists|q: int| 0 <= q < k + 1 && (#[trigger] args@[q])@ == m) by {
                    lemma_set_has_key(members@, m);
                    lemma_set_has_key(m0, m);
                    assert(set_has(m0, m) <==> (set_has(mi, m) || exists|q: int| 0 <= q < k && (#[trigger] args@[q])@ == m));
                    if exists|q: int| 0 <= q < k + 1 && (#[trigger] args@[q])@ == m {
                        let q = choose|q: int| 0 <= q < k + 1 && (#[trigger] args@[q])@ == m;
                        if q < k {
                            assert(exists|q2: int| 0 <= q2 < k && (#[trigger] args@[q2])@ == m);
                        }
                    }
                };
            }
            k = k + 1;
        }
        proof {
            assert forall|m: Seq<char>| #[trigger] set_has(members@, m) <==> (set_has(old(members)@, m) || exists|j: int| 0 <= j < i + 1 && set_has((#[trigger] facts@[j]).arguments@, m)) by {
                assert(set_has(mi, m) <==> (set_has(old(members)@, m) || exists|j: int| 0 <= j < i && set_has((#[trigger] facts@[j]).arguments@, m)));
                if exists|q: int| 0 <= q < args@.len() && (#[trigger] args@[q])@ == m {
                    assert(set_has(facts@[i as int].arguments@, m));
                }
                if set_has(facts@[i as int].arguments@, m) {
                    let q = choose|q: int| 0 <= q < args@.len() && (#[trigger] args@[q])@ == m;
                }
                if exists|j: int| 0 <= j < i + 1 && set_has((#[trigger] facts@[j]).arguments@, m) {
                    let j = choose|j: int| 0 <= j < i + 1 && set_has((#[trigger] facts@[j]).arguments@, m);
                    if j < i {
                        assert(exists|j2: int| 0 <= j2 < i && set_has((#[trigger] facts@[j2]).arguments@, m));
                    }
                }
            };
        }
        i = i + 1;
    }
}

/// Adds every package that a fact mentions to the `Package` entity type.
pub fn enrich_package_domain(model: &mut ProjectModel)
    requires
        members_sorted(old(model).declarations@),
    ensures
        enriched(old(model).declarations@, final(model).declarations@, old(model).facts@),
        final(model).facts == old(model).facts,
        final(model).artifacts == old(model).artifacts,
        final(model).decisions == old(model).decisions,
        final(model).constraints == old(model).constraints,
        final(model).fact_coverage == old(model).fact_coverage,
        final(model).edges == old(model).edges,
{
    let ghost d0 = model.declarations@;
    let mut out: Vec<IntentDeclaration> = Vec::new();
    let mut i: usize = 0;
    while i < model.declarations.len()
        invariant
            i <= d0.len(),
            model.declarations@ == d0,
            members_sorted(d0),
            out@.len() == i,
            members_sorted(out@),
            forall|j: int| 0 <= j < i ==> match #[trigger] d0[j] {
                IntentDeclaration::EntityType { name, members } => if name@ == "Package"@ {
                    out@[j] matches IntentDeclaration::EntityType { name: n2, members: m2 } && n2@ == name@ && forall|m: Seq<char>| #[trigger] set_has(m2@, m) <==> (set_has(members@, m) || fact_argument(model.facts@, m))
                } else {
                    out@[j]@ == d0[j]@ && (out@[j] matches IntentDeclaration::EntityType { members: m2, .. } && m2@ == members@)
                },
                _ => out@[j]@ == d0[j]@,
            },
        decreases d0.len() - i,
    {
        let d = match &model.declarations[i] {
            IntentDeclaration::EntityType { name, members } => {
                let mut m = crate::project::clone_strings(members);
                if str_eq(name.as_str(), "Package") {
                    add_fact_arguments(&mut m, &model.facts);
                }
                IntentDeclaration::EntityType { name: name.clone(), members: m }
            },
            IntentDeclaration::Bool(n) => IntentDeclaration::Bool(n.clone()),
            IntentDeclaration::Relation { name, arguments } => IntentDeclaration::Relation {
                name: name.clone(),
                arguments: crate::project::clone_strings(arguments),
            },
        };
        out.push(d);
        i = i + 1;
    }
    model.declarations = out;
}


/// Some claim closes the world for direct dependency declarations.
pub open spec fn dependency_world_closed(m: ProjectModel) -> bool {
    exists|i: int|
        0 <= i < m.fact_coverage@.len() && (#[trigger] m.fact_coverage@[i]).relation@ == "declares_direct_dependency"@
            && m.fact_coverage@[i].world == crate::project::WorldAssumption::Closed
}

/// The members of the first `Package` entity declaration (none without one).
pub open spec fn package_members(ds: Seq<IntentDeclaration>) -> Seq<Seq<char>>
    decreases ds.len(),
{
    if ds.len() == 0 {
        Seq::empty()
    } else {
        match ds[0] {
            IntentDeclaration::EntityType { name, members } => if name@ == "Package"@ {
                strs(members@)
            } else {
                package_members(ds.drop_first())
            },
            _ => package_members(ds.drop_first()),
        }
    }
}

/// `s` is a workspace member.
pub open spec fn workspace_source(facts: Seq<ProjectFact>, s: Seq<char>) -> bool {
    exists|i: int|
        0 <= i < facts.len() && (#[trigger] facts[i]).relation@ == "workspace_member"@ && facts[i].arguments@.len() > 0
            && facts[i].arguments@[0]@ == s
}

/// A supported fact declares the dependency `s -> t`.
pub open spec fn declared_pair(facts: Seq<ProjectFact>, s: Seq<char>, t: Seq<char>) -> bool {
    exists|i: int|
        0 <= i < facts.len() && (#[trigger] facts[i]).relation@ == "declares_direct_dependency"@
            && crate::smt::solver_supported(facts[i]) && facts[i].arguments@[0]@ == s && facts[i].arguments@[1]@ == t
}

/// The manifest of workspace member `s` (the last fact for it wins).
pub open spec fn manifest_for(facts: Seq<ProjectFact>, s: Seq<char>) -> Option<Seq<char>>
    decreases facts.len(),
{
    if facts.len() == 0 {
        None
    } else if facts.last().relation@ == "workspace_member"@ && facts.last().arguments@.len() > 0 && facts.last().arguments@[0]@ == s {
        Some(facts.last().provenance.source@)
    } else {
        manifest_for(facts.drop_last(), s)
    }
}

/// The derived fact that `s` does not declare a direct dependency on `t`.
pub open spec fn absence_fact(facts: Seq<ProjectFact>, s: Seq<char>, t: Seq<char>, f: ProjectFact) -> bool {
    &&& f.id.0@ == "cargo:absence:"@ + s + ":"@ + t
    &&& f.relation@ == "declares_direct_dependency"@
    &&& strs(f.arguments@) == seq![s, t]
    &&& !f.value
    &&& crate::cargo::pair_views(f.attributes@) == seq![
        ("coverage"@, "closed"@),
        ("kind"@, "normal"@),
        ("optional"@, "false"@),
        ("target"@, Seq::<char>::empty()),
    ]
    &&& f.provenance.kind == crate::project::ProvenanceKind::DeterministicallyExtracted
    &&& f.provenance.source@ == match manifest_for(facts, s) {
        Some(p) => p,
        None => "project:Cargo.toml"@,
    }
    &&& f.provenance.span is None
    &&& f.provenance.extractor matches Some(e) && e@ == "cargo manifest declaration closure"@
}

/// `absent` holds one absence fact for each workspace member and package it does
/// not declare a dependency on, and nothing else.
pub open spec fn absences_of(m: ProjectModel, absent: Seq<ProjectFact>) -> bool {
    let members = package_members(m.declarations@);
    &&& forall|f: ProjectFact| #[trigger] absent.contains(f) ==> exists|s: Seq<char>, t: Seq<char>|
        workspace_source(m.facts@, s) && members.contains(t) && !declared_pair(m.facts@, s, t) && #[trigger] absence_fact(m.facts@, s, t, f)
    &&& forall|s: Seq<char>, t: Seq<char>| workspace_source(m.facts@, s) && members.contains(t) && !declared_pair(m.facts@, s, t)
        ==> exists|f: ProjectFact| #[trigger] absent.contains(f) && absence_fact(m.facts@, s, t, f)
}

/// Every declared dependency fact has a source and a target.
pub open spec fn dependency_facts_binary(facts: Seq<ProjectFact>) -> bool {
    forall|i: int| 0 <= i < facts.len() && (#[trigger] facts[i]).relation@ == "declares_direct_dependency"@ ==> facts[i].arguments@.len() >= 2
}

fn first_package_members(ds: &Vec<IntentDeclaration>) -> (r: Vec<String>)
    ensures
        strs(r@) == package_members(ds@),
{
    let mut i: usize = 0;
    proof {
        assert(ds@.subrange(0, ds@.len() as int) =~= ds@);
    }
    while i < ds.len()
        invariant
            i <= ds@.len(),
            package_members(ds@) == package_members(ds@.subrange(i as int, ds@.len() as int)),
        decreases ds.len() - i,
    {
        proof {
            let rest = ds@.subrange(i as int, ds@.len() as int);
            assert(rest[0] == ds@[i as int]);
            assert(rest.drop_first() =~= ds@.subrange(i + 1, ds@.len() as int));
        }
        match &ds[i] {
            IntentDeclaration::EntityType { name, members } => {
                if str_eq(name.as_str(), "Package") {
                    return crate::project::clone_strings(members);
                }
            },
            _ => {},
        }
        i = i + 1;
    }
    Vec::new()
}

fn workspace_sources(facts: &Vec<ProjectFact>) -> (r: Vec<String>)
    ensures
        strictly_sorted(r@),
        forall|s: Seq<char>| #[trigger] set_has(r@, s) <==> workspace_source(facts@, s),
{
    let mut out: Vec<String> = Vec::new();
    let mut i: usize = 0;
    while i < facts.len()
        invariant
            i <= facts@.len(),
            strictly_sorted(out@),
            forall|s: Seq<char>| #[trigger] set_has(out@, s) <==> workspace_source(facts@.take(i as int), s),
        decreases facts.len() - i,
    {
        let f = &facts[i];
        let ghost o0 = out@;
        if str_eq(f.relation.as_str(), "workspace_member") && f.arguments.len() > 0 {
            upsert(&mut out, f.arguments[0].clone());
        }
        proof {
            assert forall|s: Seq<char>| #[trigger] set_has(out@, s) <==> workspace_source(facts@.take(i + 1), s) by {
                lemma_set_has_key(out@, s);
                lemma_set_has_key(o0, s);
                assert(set_has(o0, s) <==> workspace_source(facts@.take(i as int), s));
                if workspace_source(facts@.take(i + 1), s) {
                    let j = choose|j: int| 0 <= j < i + 1 && (#[trigger] facts@.take(i + 1)[j]).relation@ == "workspace_member"@ && facts@.take(i + 1)[j].arguments@.len() > 0
                        && facts@.take(i + 1)[j].arguments@[0]@ == s;
                    if j < i {
                        assert(facts@.take(i as int)[j] == facts@.take(i + 1)[j]);
                    }
                }
                if workspace_source(facts@.take(i as int), s) {
                    let j = choose|j: int| 0 <= j < i && (#[trigger] facts@.take(i as int)[j]).relation@ == "workspace_member"@ && facts@.take(i as int)[j].arguments@.len() > 0
                        && facts@.take(i as int)[j].arguments@[0]@ == s;
                    assert(facts@.take(i + 1)[j] == facts@.take(i as int)[j]);
                }
                if set_has(out@, s) && !set_has(o0, s) {
                    assert(facts@.take(i + 1)[i as int] == facts@[i as int]);
                }
            };
        }
        i = i + 1;
    }
    proof {
        assert(facts@.take(facts@.len() as int) =~= facts@);
    }
    out
}

fn declared_pair_exec(facts: &Vec<ProjectFact>, s: &String, t: &String) -> (r: bool)
    requires
        dependency_facts_binary(facts@),
    ensures
        r == declared_pair(facts@, s@, t@),
{
    let mut i: usize = 0;
    while i < facts.len()
        invariant
            i <= facts@.len(),
            dependency_facts_binary(facts@),
            forall|j: int| 0 <= j < i ==> !((#[trigger] facts@[j]).relation@ == "declares_direct_dependency"@
                && crate::smt::solver_supported(facts@[j]) && facts@[j].arguments@[0]@ == s@ && facts@[j].arguments@[1]@ == t@),
        decreases facts.len() - i,
    {
        let f = &facts[i];
        if str_eq(f.relation.as_str(), "declares_direct_dependency") {
            if crate::smt::fact_is_solver_supported(f) && str_eq(f.arguments[0].as_str(), s.as_str())
                && str_eq(f.arguments[1].as_str(), t.as_str()) {
                return true;
            }
        }
        i = i + 1;
    }
    false
}

fn manifest_for_exec(facts: &Vec<ProjectFact>, s: &String) -> (r: String)
    ensures
        r@ == match manifest_for(facts@, s@) {
            Some(p) => p,
            None => "project:Cargo.toml"@,
        },
{
    let mut found: Option<usize> = None;
    let mut i: usize = 0;
    while i < facts.len()
        invariant
            i <= facts@.len(),
            found matches Some(j) ==> j < i && manifest_for(facts@.take(i as int), s@) == Some(facts@[j as int].provenance.source@),
            found is None ==> manifest_for(facts@.take(i as int), s@) is None,
        decreases facts.len() - i,
    {
        proof {
            assert(facts@.take(i + 1).drop_last() =~= facts@.take(i as int));
        }
        let f = &facts[i];
        if str_eq(f.relation.as_str(), "workspace_member") && f.arguments.len() > 0 && str_eq(f.arguments[0].as_str(), s.as_str()) {
            found = Some(i);
        }
        i = i + 1;
    }
    proof {
        assert(facts@.take(facts@.len() as int) =~= facts@);
    }
    match found {
        Some(j) => facts[j].provenance.source.clone(),
        None => crate::text::own("project:Cargo.toml"),
    }
}

fn absence(facts: &Vec<ProjectFact>, s: &String, t: &String) -> (f: ProjectFact)
    ensures
        absence_fact(facts@, s@, t@, f),
{
    let mut id = crate::text::own("cargo:absence:");
    id.append(s.as_str());
    id.append(":");
    id.append(t.as_str());
    let attributes: Vec<(String, String)> = vec![
        (crate::text::own("coverage"), crate::text::own("closed")),
        (crate::text::own("kind"), crate::text::own("normal")),
        (crate::text::own("optional"), crate::text::own("false")),
        (crate::text::own("target"), String::new()),
    ];
    proof {
        assert(crate::cargo::pair_views(attributes@) =~= seq![
            ("coverage"@, "closed"@),
            ("kind"@, "normal"@),
            ("optional"@, "false"@),
            ("target"@, Seq::<char>::empty()),
        ]);
    }
    let arguments = vec![s.clone(), t.clone()];
    proof {
        assert(strs(arguments@) =~= seq![s@, t@]);
    }
    ProjectFact {
        id: crate::project::FactId(id),
        relation: crate::text::own("declares_direct_dependency"),
        arguments,
        value: false,
        attributes,
        provenance: Provenance {
            kind: crate::project::ProvenanceKind::DeterministicallyExtracted,
            source: manifest_for_exec(facts, s),
            span: None,
            extractor: Some(crate::text::own("cargo manifest declaration closure")),
        },
    }
}

/// Under a closed claim for dependency declarations, adds the derived absence of
/// every dependency a workspace member does not declare on a package.
pub fn apply_closed_world_facts(model: &mut ProjectModel)
    requires
        strictly_sorted(old(model).edges@),
        strictly_sorted(old(model).facts@),
        dependency_facts_binary(old(model).facts@),
    ensures
        !dependency_world_closed(*old(model)) ==> *final(model) == *old(model),
        dependency_world_closed(*old(model)) ==> exists|absent: Seq<ProjectFact>| absences_of(*old(model), absent)
            && #[trigger] crate::project::added_facts(*old(model), *final(model), absent),
{
    let ghost m0 = *model;
    let mut covered = false;
    let mut i: usize = 0;
    while i < model.fact_coverage.len()
        invariant
            i <= model.fact_coverage@.len(),
            covered == exists|j: int| 0 <= j < i && (#[trigger] model.fact_coverage@[j]).relation@ == "declares_direct_dependency"@
                && model.fact_coverage@[j].world == crate::project::WorldAssumption::Closed,
        decreases model.fact_coverage.len() - i,
    {
        let c = &model.fact_coverage[i];
        if str_eq(c.relation.as_str(), "declares_direct_dependency") && c.world == crate::project::WorldAssumption::Closed {
            covered = true;
        }
        i = i + 1;
    }
    if !covered {
        return;
    }
    let members = first_package_members(&model.declarations);
    let sources = workspace_sources(&model.facts);
    let mut absent: Vec<ProjectFact> = Vec::new();
    let mut a: usize = 0;
    while a < sources.len()
        invariant
            *model == m0,
            a <= sources@.len(),
            strictly_sorted(sources@),
            dependency_facts_binary(m0.facts@),
            strs(members@) == package_members(m0.declarations@),
            forall|s: Seq<char>| #[trigger] set_has(sources@, s) <==> workspace_source(m0.facts@, s),
            forall|f: ProjectFact| #[trigger] absent@.contains(f) ==> exists|s: Seq<char>, t: Seq<char>|
                workspace_source(m0.facts@, s) && strs(members@).contains(t) && !declared_pair(m0.facts@, s, t) && #[trigger] absence_fact(m0.facts@, s, t, f),
            forall|q: int, t: Seq<char>| 0 <= q < a && strs(members@).contains(t) && !#[trigger] declared_pair(m0.facts@, sources@[q]@, t)
                ==> exists|f: ProjectFact| #[trigger] absent@.contains(f) && absence_fact(m0.facts@, sources@[q]@, t, f),
        decreases sources.len() - a,
    {
        let s = &sources[a];
        proof {
            assert(set_has(sources@, s@));
        }
        let ghost ab = absent@;
        let mut b: usize = 0;
        while b < members.len()
            invariant
                *model == m0,
                a < sources@.len(),
                *s == sources@[a as int],
                b <= members@.len(),
                dependency_facts_binary(m0.facts@),
                workspace_source(m0.facts@, s@),
                strs(members@) == package_members(m0.declarations@),
                absent@.len() >= ab.len(),
                forall|q: int| 0 <= q < ab.len() ==> absent@[q] == ab[q],
                forall|f: ProjectFact| #[trigger] absent@.contains(f) ==> exists|s2: Seq<char>, t: Seq<char>|
                    workspace_source(m0.facts@, s2) && strs(members@).contains(t) && !declared_pair(m0.facts@, s2, t) && #[trigger] absence_fact(m0.facts@, s2, t, f),
                forall|q: int| 0 <= q < b && !declared_pair(m0.facts@, s@, (#[trigger] members@[q])@)
                    ==> exists|f: ProjectFact| #[trigger] absent@.contains(f) && absence_fact(m0.facts@, s@, members@[q]@, f),
            decreases members.len() - b,
        {
            let t = &members[b];
            let ghost a0 = absent@;
            if !declared_pair_exec(&model.facts, s, t) {
                let f = absence(&model.facts, s, t);
                absent.push(f);
                proof {
                    assert(strs(members@)[b as int] == t@);
                    assert(absent@[absent@.len() - 1] == f);
                    assert forall|x: ProjectFact| #[trigger] absent@.contains(x) implies exists|s2: Seq<char>, t2: Seq<char>|
                        workspace_source(m0.facts@, s2) && strs(members@).contains(t2) && !declared_pair(m0.facts@, s2, t2) && #[trigger] absence_fact(m0.facts@, s2, t2, x) by {
                        if x == f {
                            assert(absence_fact(m0.facts@, s@, t@, x));
                        } else {
                            let k = choose|k: int| 0 <= k < absent@.len() && absent@[k] == x;
                            assert(a0[k] == x);
                            assert(a0.contains(x));
                        }
                    };
                    assert forall|q: int| 0 <= q < b + 1 && !declared_pair(m0.facts@, s@, (#[trigger] members@[q])@)
                        implies exists|f2: ProjectFact| #[trigger] absent@.contains(f2) && absence_fact(m0.facts@, s@, members@[q]@, f2) by {
                        if q < b {
                            let f2 = choose|f2: ProjectFact| #[trigger] a0.contains(f2) && absence_fact(m0.facts@, s@, members@[q]@, f2);
                            let k = choose|k: int| 0 <= k < a0.len() && a0[k] == f2;
                            assert(absent@[k] == f2);
                            assert(absent@.contains(f2));
                        } else {
                            assert(absent@.contains(f));
                        }
                    };
                }
            }
            b = b + 1;
        }
        proof {
            assert forall|q: int, t: Seq<char>| 0 <= q < a + 1 && strs(members@).contains(t) && !#[trigger] declared_pair(m0.facts@, sources@[q]@, t)
                implies exists|f: ProjectFact| #[trigger] absent@.contains(f) && absence_fact(m0.facts@, sources@[q]@, t, f) by {
                let p = choose|p: int| 0 <= p < strs(members@).len() && strs(members@)[p] == t;
                assert(members@[p]@ == t);
                if q < a {
                    let f = choose|f: ProjectFact| #[trigger] ab.contains(f) && absence_fact(m0.facts@, sources@[q]@, t, f);
                    let k = choose|k: int| 0 <= k < ab.len() && ab[k] == f;
                    assert(absent@[k] == f);
                    assert(absent@.contains(f));
                }
            };
        }
        a = a + 1;
    }
    let ghost abs = absent@;
    proof {
        assert forall|s: Seq<char>, t: Seq<char>| workspace_source(m0.facts@, s) && package_members(m0.declarations@).contains(t) && !declared_pair(m0.facts@, s, t)
            implies exists|f: ProjectFact| #[trigger] abs.contains(f) && absence_fact(m0.facts@, s, t, f) by {
            assert(set_has(sources@, s));
            let q = choose|q: int| 0 <= q < sources@.len() && #[trigger] sources@[q]@ == s;
        };
        assert(absences_of(m0, abs));
    }
    model.add_facts(absent);
}


// ---------------------------------------------------------------------------
// Closed-world absence for declared relations
// ---------------------------------------------------------------------------

/// The members of entity type `name` (its last declaration wins).
pub open spec fn entity_members_of(ds: Seq<IntentDeclaration>, name: Seq<char>) -> Option<Seq<Seq<char>>>
    decreases ds.len(),
{
    if ds.len() == 0 {
        None
    } else {
        match ds.last() {
            IntentDeclaration::EntityType { name: n, members } => if n@ == name {
                Some(strs(members@))
            } else {
                entity_members_of(ds.drop_last(), name)
            },
            _ => entity_members_of(ds.drop_last(), name),
        }
    }
}

/// `t` has one value from each argument type's members.
pub open spec fn in_domains(ds: Seq<IntentDeclaration>, types: Seq<Seq<char>>, t: Seq<Seq<char>>) -> bool {
    &&& t.len() == types.len()
    &&& forall|i: int| 0 <= i < types.len() ==> (entity_members_of(ds, #[trigger] types[i]) matches Some(ms) && ms.contains(t[i]))
}

/// Declaration `r` declares `relation` (not a direct dependency declaration), `t`
/// is one of its tuples over the entity members, no true fact states it, and a
/// closed completeness claim covers it.
pub open spec fn generic_absent_at(m: ProjectModel, r: int, relation: Seq<char>, t: Seq<Seq<char>>) -> bool {
    &&& 0 <= r < m.declarations@.len()
    &&& m.declarations@[r] matches IntentDeclaration::Relation { name, arguments } && name@ == relation
        && in_domains(m.declarations@, strs(arguments@), t)
    &&& relation != "declares_direct_dependency"@
    &&& !crate::check::observed(m, relation, t)
    &&& crate::project::coverage_of(m.fact_coverage@, relation, crate::check::scope_for_atom(relation, t, Seq::empty()))
        == Some(crate::project::WorldAssumption::Closed)
}

pub open spec fn generic_absent(m: ProjectModel, relation: Seq<char>, t: Seq<Seq<char>>) -> bool {
    exists|r: int| #[trigger] generic_absent_at(m, r, relation, t)
}

pub open spec fn join_colon(t: Seq<Seq<char>>) -> Seq<char>
    decreases t.len(),
{
    if t.len() == 0 {
        Seq::empty()
    } else if t.len() == 1 {
        t[0]
    } else {
        join_colon(t.drop_last()) + ":"@ + t.last()
    }
}

pub open spec fn closed_world_id(relation: Seq<char>, t: Seq<Seq<char>>) -> Seq<char> {
    "closed-world:"@ + relation + ":"@ + join_colon(t)
}

/// The identifier of some closed-world absence of a declared relation.
pub open spec fn closed_world_key(m: ProjectModel, k: Seq<char>) -> bool {
    exists|relation: Seq<char>, t: Seq<Seq<char>>| #[trigger] generic_absent(m, relation, t) && k == closed_world_id(relation, t)
}

/// The derived fact that `relation(t)` does not hold.
pub open spec fn closed_world_fact(relation: Seq<char>, t: Seq<Seq<char>>, f: ProjectFact) -> bool {
    &&& f.id.0@ == closed_world_id(relation, t)
    &&& f.relation@ == relation
    &&& strs(f.arguments@) == t
    &&& !f.value
    &&& crate::cargo::pair_views(f.attributes@) == seq![("coverage"@, "closed"@)]
}

pub open spec fn is_migration(m: ProjectModel, a: int) -> bool {
    0 <= a < m.artifacts@.len() && m.artifacts@[a].kind@ == "postgres_migration"@
}

/// The key of an edge from a migration artifact to a closed-world absence.
pub open spec fn migration_edge_key(m: ProjectModel, k: Seq<char>) -> bool {
    exists|a: int, x: Seq<char>|
        #[trigger] is_migration(m, a) && #[trigger] closed_world_key(m, x)
            && k == crate::project::edge_json_parts("Artifact"@, m.artifacts@[a].id.0@, LinkKind::Produces, "Fact"@, x)
}

/// `new` is `old` with the closed-world absences of declared relations added, each
/// with an edge from every migration artifact.
pub open spec fn generically_closed(old: ProjectModel, new: ProjectModel) -> bool {
    &&& strictly_sorted(new.facts@)
    &&& strictly_sorted(new.edges@)
    &&& forall|k: Seq<char>| #[trigger] has_key(new.facts@, k) <==> (has_key(old.facts@, k) || closed_world_key(old, k))
    &&& forall|x: ProjectFact| #[trigger] new.facts@.contains(x) ==> old.facts@.contains(x)
        || exists|relation: Seq<char>, t: Seq<Seq<char>>| #[trigger] generic_absent(old, relation, t) && closed_world_fact(relation, t, x)
    &&& forall|x: ProjectFact| #[trigger] old.facts@.contains(x) && !closed_world_key(old, x.id.0@) ==> new.facts@.contains(x)
    &&& forall|k: Seq<char>| #[trigger] has_key(new.edges@, k) <==> (has_key(old.edges@, k) || migration_edge_key(old, k))
    &&& new.artifacts == old.artifacts
    &&& new.decisions == old.decisions
    &&& new.constraints == old.constraints
    &&& new.declarations == old.declarations
    &&& new.fact_coverage == old.fact_coverage
}


fn entity_members_exec<'a>(ds: &'a Vec<IntentDeclaration>, name: &str) -> (r: Option<&'a Vec<String>>)
    ensures
        match r {
            Some(m) => entity_members_of(ds@, name@) == Some(strs(m@)),
            None => entity_members_of(ds@, name@) is None,
        },
{
    let mut found: Option<usize> = None;
    let mut i: usize = 0;
    while i < ds.len()
        invariant
            i <= ds@.len(),
            found matches Some(j) ==> j < i && (ds@[j as int] matches IntentDeclaration::EntityType { members, .. } && entity_members_of(ds@.take(i as int), name@) == Some(strs(members@))),
            found is None ==> entity_members_of(ds@.take(i as int), name@) is None,
        decreases ds.len() - i,
    {
        proof {
            assert(ds@.take(i + 1).drop_last() =~= ds@.take(i as int));
        }
        match &ds[i] {
            IntentDeclaration::EntityType { name: n, .. } => {
                if str_eq(n.as_str(), name) {
                    found = Some(i);
                }
            },
            _ => {},
        }
        i = i + 1;
    }
    proof {
        assert(ds@.take(ds@.len() as int) =~= ds@);
    }
    match found {
        Some(j) => match &ds[j] {
            IntentDeclaration::EntityType { members, .. } => Some(members),
            _ => None,
        },
        None => None,
    }
}

pub open spec fn in_domains_upto(ds: Seq<IntentDeclaration>, types: Seq<Seq<char>>, k: int, t: Seq<Seq<char>>) -> bool {
    &&& t.len() == k
    &&& forall|i: int| 0 <= i < k ==> (entity_members_of(ds, #[trigger] types[i]) matches Some(ms) && ms.contains(t[i]))
}

pub open spec fn tuple_listed(list: Seq<Vec<String>>, t: Seq<Seq<char>>) -> bool {
    exists|q: int| 0 <= q < list.len() && strs((#[trigger] list[q])@) == t
}

/// Every tuple of members of the argument types (none when a type is not an entity).
fn product(ds: &Vec<IntentDeclaration>, types: &Vec<String>) -> (r: Option<Vec<Vec<String>>>)
    ensures
        r is None <==> exists|i: int| 0 <= i < types@.len() && entity_members_of(ds@, (#[trigger] types@[i])@) is None,
        r matches Some(list) ==> forall|t: Seq<Seq<char>>| #[trigger] tuple_listed(list@, t) <==> in_domains(ds@, strs(types@), t),
{
    let mut tuples: Vec<Vec<String>> = vec![Vec::new()];
    proof {
        assert forall|t: Seq<Seq<char>>| #[trigger] tuple_listed(tuples@, t) <==> in_domains_upto(ds@, strs(types@), 0, t) by {
            if in_domains_upto(ds@, strs(types@), 0, t) {
                assert(strs(tuples@[0]@) =~= t);
            }
        };
    }
    let mut i: usize = 0;
    while i < types.len()
        invariant
            i <= types@.len(),
            forall|j: int| 0 <= j < i ==> entity_members_of(ds@, (#[trigger] types@[j])@) is Some,
            forall|t: Seq<Seq<char>>| #[trigger] tuple_listed(tuples@, t) <==> in_domains_upto(ds@, strs(types@), i as int, t),
        decreases types.len() - i,
    {
        let ms = match entity_members_exec(ds, types[i].as_str()) {
            Some(m) => m,
            None => return None,
        };
        let mut next: Vec<Vec<String>> = Vec::new();
        let mut p: usize = 0;
        proof {
            assert forall|q: int| 0 <= q < tuples@.len() implies (#[trigger] tuples@[q])@.len() == i by {
                assert(tuple_listed(tuples@, strs(tuples@[q]@)));
            };
        }
        while p < tuples.len()
            invariant
                i < types@.len(),
                p <= tuples@.len(),
                forall|q: int| 0 <= q < tuples@.len() ==> (#[trigger] tuples@[q])@.len() == i,
                entity_members_of(ds@, types@[i as int]@) == Some(strs(ms@)),
                forall|t: Seq<Seq<char>>| #[trigger] tuple_listed(next@, t) <==> (t.len() == i + 1 && strs(ms@).contains(t[i as int])
                    && exists|q: int| 0 <= q < p && strs((#[trigger] tuples@[q])@) == t.take(i as int)),
            decreases tuples.len() - p,
        {
            let mut v: usize = 0;
            let ghost n0 = next@;
            while v < ms.len()
                invariant
                    i < types@.len(),
                    p < tuples@.len(),
                    v <= ms@.len(),
                    forall|q: int| 0 <= q < tuples@.len() ==> (#[trigger] tuples@[q])@.len() == i,
                    next@.len() >= n0.len(),
                    forall|q: int| 0 <= q < n0.len() ==> next@[q] == n0[q],
                    forall|t: Seq<Seq<char>>| #[trigger] tuple_listed(next@, t) <==> (tuple_listed(n0, t) || (t.len() == i + 1
                        && strs(tuples@[p as int]@) == t.take(i as int) && exists|w: int| 0 <= w < v && (#[trigger] ms@[w])@ == t[i as int])),
                decreases ms.len() - v,
            {
                let mut item = crate::project::clone_strings(&tuples[p]);
                item.push(ms[v].clone());
                let ghost nb = next@;
                next.push(item);
                proof {
                    assert(strs(item@) =~= strs(tuples@[p as int]@).push(ms@[v as int]@));
                    assert forall|t: Seq<Seq<char>>| #[trigger] tuple_listed(next@, t) <==> (tuple_listed(n0, t) || (t.len() == i + 1
                        && strs(tuples@[p as int]@) == t.take(i as int) && exists|w: int| 0 <= w < v + 1 && (#[trigger] ms@[w])@ == t[i as int])) by {
                        if tuple_listed(next@, t) {
                            let q = choose|q: int| 0 <= q < next@.len() && strs((#[trigger] next@[q])@) == t;
                            if q < nb.len() {
                                assert(next@[q] == nb[q]);
                                assert(tuple_listed(nb, t));
                            } else {
                                assert(t =~= strs(item@));
                                assert(strs(tuples@[p as int]@) =~= t.take(i as int));
                            }
                        }
                        if tuple_listed(nb, t) {
                            let q = choose|q: int| 0 <= q < nb.len() && strs((#[trigger] nb[q])@) == t;
                            assert(next@[q] == nb[q]);
                        }
                        if t.len() == i + 1 && strs(tuples@[p as int]@) == t.take(i as int) && exists|w: int| 0 <= w < v + 1 && (#[trigger] ms@[w])@ == t[i as int] {
                            let w = choose|w: int| 0 <= w < v + 1 && (#[trigger] ms@[w])@ == t[i as int];
                            if w == v {
                                assert(strs(item@) =~= t);
                                assert(next@[next@.len() - 1] == item);
                            } else {
                                assert(tuple_listed(nb, t));
                            }
                        }
                    };
                }
                v = v + 1;
            }
            proof {
                assert forall|t: Seq<Seq<char>>| #[trigger] tuple_listed(next@, t) <==> (t.len() == i + 1 && strs(ms@).contains(t[i as int])
                    && exists|q: int| 0 <= q < p + 1 && strs((#[trigger] tuples@[q])@) == t.take(i as int)) by {
                    if t.len() == i + 1 && strs(ms@).contains(t[i as int]) {
                        let w = choose|w: int| 0 <= w < strs(ms@).len() && strs(ms@)[w] == t[i as int];
                        assert(ms@[w]@ == t[i as int]);
                    }
                    if exists|w: int| 0 <= w < ms@.len() && (#[trigger] ms@[w])@ == t[i as int] {
                        let w = choose|w: int| 0 <= w < ms@.len() && (#[trigger] ms@[w])@ == t[i as int];
                        assert(strs(ms@)[w] == t[i as int]);
                    }
                    if exists|q: int| 0 <= q < p + 1 && strs((#[trigger] tuples@[q])@) == t.take(i as int) {
                        let q = choose|q: int| 0 <= q < p + 1 && strs((#[trigger] tuples@[q])@) == t.take(i as int);
                        if q < p {
                            assert(exists|q2: int| 0 <= q2 < p && strs((#[trigger] tuples@[q2])@) == t.take(i as int));
                        }
                    }
                };
            }
            p = p + 1;
        }
        proof {
            assert forall|t: Seq<Seq<char>>| #[trigger] tuple_listed(next@, t) <==> in_domains_upto(ds@, strs(types@), i + 1, t) by {
                assert(strs(types@)[i as int] == types@[i as int]@);
                if t.len() == i + 1 {
                    assert(in_domains_upto(ds@, strs(types@), i as int, t.take(i as int)) <==> tuple_listed(tuples@, t.take(i as int)));
                    if in_domains_upto(ds@, strs(types@), i + 1, t) {
                        assert forall|j: int| 0 <= j < i implies (entity_members_of(ds@, #[trigger] strs(types@)[j]) matches Some(ms2) && ms2.contains(t.take(i as int)[j])) by {
                            assert(t.take(i as int)[j] == t[j]);
                        };
                    }
                    if tuple_listed(tuples@, t.take(i as int)) && strs(ms@).contains(t[i as int]) {
                        assert forall|j: int| 0 <= j < i + 1 implies (entity_members_of(ds@, #[trigger] strs(types@)[j]) matches Some(ms2) && ms2.contains(t[j])) by {
                            if j < i {
                                assert(t.take(i as int)[j] == t[j]);
                            }
                        };
                    }
                }
            };
        }
        tuples = next;
        i = i + 1;
    }
    proof {
        assert forall|t: Seq<Seq<char>>| #[trigger] tuple_listed(tuples@, t) <==> in_domains(ds@, strs(types@), t) by {
            assert(strs(types@).len() == types@.len());
        };
    }
    Some(tuples)
}


fn join_colon_exec(t: &Vec<String>) -> (r: String)
    ensures
        r@ == join_colon(strs(t@)),
{
    let mut acc = String::new();
    let mut i: usize = 0;
    while i < t.len()
        invariant
            i <= t@.len(),
            acc@ == join_colon(strs(t@).take(i as int)),
        decreases t.len() - i,
    {
        proof {
            assert(strs(t@).take(i + 1).drop_last() =~= strs(t@).take(i as int));
            assert(strs(t@).take(i + 1).last() == t@[i as int]@);
        }
        if i == 0 {
            acc = t[0].clone();
            proof {
                assert(strs(t@).take(1)[0] == t@[0]@);
            }
        } else {
            acc = crate::text::cat3(acc.as_str(), ":", t[i].as_str());
        }
        i = i + 1;
    }
    proof {
        assert(strs(t@).take(t@.len() as int) =~= strs(t@));
    }
    acc
}

fn closed_world_id_exec(relation: &str, t: &Vec<String>) -> (r: String)
    ensures
        r@ == closed_world_id(relation@, strs(t@)),
{
    let tail = join_colon_exec(t);
    let head = crate::text::cat3("closed-world:", relation, ":");
    crate::text::cat(head.as_str(), tail.as_str())
}

/// Both lists have at least `n` entries and agree on the first `n`.
pub open spec fn same_first_spec(a: Seq<String>, b: Seq<String>, n: int) -> bool {
    a.len() >= n && b.len() >= n && forall|i: int| 0 <= i < n ==> (#[trigger] a[i])@ == b[i]@
}

fn same_first(a: &Vec<String>, b: &Vec<String>, n: usize) -> (r: bool)
    requires
        n <= 2,
    ensures
        r == same_first_spec(a@, b@, n as int),
{
    if a.len() < n || b.len() < n {
        return false;
    }
    let mut i: usize = 0;
    while i < n
        invariant
            i <= n,
            n <= a@.len(),
            n <= b@.len(),
            forall|j: int| 0 <= j < i ==> (#[trigger] a@[j])@ == b@[j]@,
        decreases n - i,
    {
        if !str_eq(a[i].as_str(), b[i].as_str()) {
            return false;
        }
        i = i + 1;
    }
    true
}

/// The first fact of `facts` from index `i` on with relation `rel` whose arguments
/// begin with the first `n` entries of `t`.
pub open spec fn first_naming(facts: Seq<ProjectFact>, rel: Seq<char>, t: Seq<String>, n: int, i: int) -> Option<int>
    decreases facts.len() - i,
{
    if i < 0 || i >= facts.len() {
        None
    } else if facts[i].relation@ == rel && same_first_spec(facts[i].arguments@, t, n) {
        Some(i)
    } else {
        first_naming(facts, rel, t, n, i + 1)
    }
}

/// `p` is the provenance given to a derived absence over `t`: that of the first
/// column fact naming its table and column, else that of the first table fact naming
/// its table, else the migration closure's.
pub open spec fn is_nearest_provenance(facts: Seq<ProjectFact>, t: Seq<String>, p: Provenance) -> bool {
    if t.len() >= 2 && first_naming(facts, "column"@, t, 2, 0) is Some {
        p == facts[first_naming(facts, "column"@, t, 2, 0)->0].provenance
    } else if t.len() >= 1 && first_naming(facts, "table"@, t, 1, 0) is Some {
        p == facts[first_naming(facts, "table"@, t, 1, 0)->0].provenance
    } else {
        &&& p.kind == crate::project::ProvenanceKind::DeterministicallyExtracted
        &&& p.source@ == "project:migrations"@
        &&& p.span is None
        &&& p.extractor matches Some(x) && x@ == "closed-world PostgreSQL migration closure"@
    }
}

/// The first fact from index 0 with relation `rel` naming the first `n` entries of `t`.
fn find_naming(facts: &Vec<ProjectFact>, rel: &str, t: &Vec<String>, n: usize) -> (r: Option<usize>)
    requires
        n <= 2,
    ensures
        r matches Some(k) ==> first_naming(facts@, rel@, t@, n as int, 0) == Some(k as int) && k < facts@.len(),
        r is None ==> first_naming(facts@, rel@, t@, n as int, 0) is None,
{
    let mut i: usize = 0;
    while i < facts.len()
        invariant
            n <= 2,
            i <= facts@.len(),
            first_naming(facts@, rel@, t@, n as int, 0) == first_naming(facts@, rel@, t@, n as int, i as int),
        decreases facts.len() - i,
    {
        if str_eq(facts[i].relation.as_str(), rel) && same_first(&facts[i].arguments, t, n) {
            return Some(i);
        }
        i = i + 1;
    }
    None
}

/// Where a derived absence over `t` is said to come from: the first column fact
/// naming its table and column, else the first table fact naming its table, else
/// the migration closure itself.
fn nearest_provenance(facts: &Vec<ProjectFact>, t: &Vec<String>) -> (r: Provenance)
    ensures
        is_nearest_provenance(facts@, t@, r),
{
    proof {
        reveal_strlit("column");
        reveal_strlit("table");
    }
    if t.len() >= 2 {
        match find_naming(facts, "column", t, 2) {
            Some(k) => {
                return facts[k].provenance.clone();
            },
            None => {},
        }
    }
    if t.len() >= 1 {
        match find_naming(facts, "table", t, 1) {
            Some(k) => {
                return facts[k].provenance.clone();
            },
            None => {},
        }
    }
    let r = Provenance {
        kind: crate::project::ProvenanceKind::DeterministicallyExtracted,
        source: crate::text::own("project:migrations"),
        span: None,
        extractor: Some(crate::text::own("closed-world PostgreSQL migration closure")),
    };
    r
}

proof fn lemma_found_grows(f0: Seq<ProjectFact>, f1: Seq<ProjectFact>, k: Seq<char>)
    requires
        f0.len() <= f1.len(),
        forall|j: int| 0 <= j < f0.len() ==> f1[j] == f0[j],
        has_key(f0, k),
    ensures
        has_key(f1, k),
{
    let j = choose|j: int| 0 <= j < f0.len() && #[trigger] f0[j].key() == k;
    assert(f1[j].key() == k);
}

/// The closed-world absences of one declared relation, appended to `found`.
fn relation_absences(m: &ProjectModel, d: usize, name: &String, arguments: &Vec<String>, found: &mut Vec<ProjectFact>)
    requires
        d < m.declarations@.len(),
        m.declarations@[d as int] == (IntentDeclaration::Relation { name: *name, arguments: *arguments }),
        name@ != "declares_direct_dependency"@,
        forall|x: ProjectFact| #[trigger] old(found)@.contains(x) ==> exists|relation: Seq<char>, t: Seq<Seq<char>>|
            #[trigger] generic_absent(*m, relation, t) && closed_world_fact(relation, t, x),
    ensures
        final(found)@.len() >= old(found)@.len(),
        forall|j: int| 0 <= j < old(found)@.len() ==> final(found)@[j] == old(found)@[j],
        forall|x: ProjectFact| #[trigger] final(found)@.contains(x) ==> exists|relation: Seq<char>, t: Seq<Seq<char>>|
            #[trigger] generic_absent(*m, relation, t) && closed_world_fact(relation, t, x),
        forall|t: Seq<Seq<char>>| #[trigger] generic_absent_at(*m, d as int, name@, t) ==> has_key(final(found)@, closed_world_id(name@, t)),
{
    let ghost f0 = found@;
    let list = match product(&m.declarations, arguments) {
        Some(l) => l,
        None => {
            proof {
                assert forall|t: Seq<Seq<char>>| #[trigger] generic_absent_at(*m, d as int, name@, t) implies has_key(found@, closed_world_id(name@, t)) by {
                    let i = choose|i: int| 0 <= i < arguments@.len() && entity_members_of(m.declarations@, (#[trigger] arguments@[i])@) is None;
                    assert(strs(arguments@)[i] == arguments@[i]@);
                    assert(in_domains(m.declarations@, strs(arguments@), t));
                };
            }
            return;
        },
    };
    let empty: Vec<String> = Vec::new();
    proof {
        assert(strs(empty@) =~= Seq::<Seq<char>>::empty());
    }
    let mut q: usize = 0;
    while q < list.len()
        invariant
            q <= list@.len(),
            d < m.declarations@.len(),
            m.declarations@[d as int] == (IntentDeclaration::Relation { name: *name, arguments: *arguments }),
            name@ != "declares_direct_dependency"@,
            strs(empty@) == Seq::<Seq<char>>::empty(),
            forall|t: Seq<Seq<char>>| #[trigger] tuple_listed(list@, t) <==> in_domains(m.declarations@, strs(arguments@), t),
            found@.len() >= f0.len(),
            forall|j: int| 0 <= j < f0.len() ==> found@[j] == f0[j],
            forall|x: ProjectFact| #[trigger] found@.contains(x) ==> exists|relation: Seq<char>, t: Seq<Seq<char>>|
                #[trigger] generic_absent(*m, relation, t) && closed_world_fact(relation, t, x),
            forall|p: int| 0 <= p < q && #[trigger] generic_absent_at(*m, d as int, name@, strs(list@[p]@))
                ==> has_key(found@, closed_world_id(name@, strs(list@[p]@))),
        decreases list.len() - q,
    {
        let t = &list[q];
        let ghost tv = strs(t@);
        let ghost fb = found@;
        proof {
            assert(tuple_listed(list@, tv));
        }
        if !crate::check::observed_exec(m, name.as_str(), t) {
            let scope = crate::check::coverage_scope_for_atom(name.as_str(), t, &empty);
            match m.coverage_for(name.as_str(), &scope) {
                Some(crate::project::WorldAssumption::Closed) => {
                    let id = closed_world_id_exec(name.as_str(), t);
                    let mut attributes: Vec<(String, String)> = Vec::new();
                    attributes.push((crate::text::own("coverage"), crate::text::own("closed")));
                    let fact = ProjectFact {
                        id: crate::project::FactId(id),
                        relation: name.clone(),
                        arguments: crate::project::clone_strings(t),
                        value: false,
                        attributes,
                        provenance: nearest_provenance(&m.facts, t),
                    };
                    proof {
                        assert(crate::cargo::pair_views(attributes@) =~= seq![("coverage"@, "closed"@)]);
                        assert(generic_absent_at(*m, d as int, name@, tv));
                        assert(closed_world_fact(name@, tv, fact));
                    }
                    found.push(fact);
                    proof {
                        assert forall|x: ProjectFact| #[trigger] found@.contains(x) implies exists|relation: Seq<char>, t2: Seq<Seq<char>>|
                            #[trigger] generic_absent(*m, relation, t2) && closed_world_fact(relation, t2, x) by {
                            if x != fact {
                                let k = choose|k: int| 0 <= k < found@.len() && found@[k] == x;
                                assert(fb[k] == x);
                                assert(fb.contains(x));
                            } else {
                                assert(generic_absent(*m, name@, tv));
                            }
                        };
                        assert(found@[found@.len() - 1].key() == closed_world_id(name@, tv));
                    }
                },
                _ => {},
            }
        }
        proof {
            assert forall|p: int| 0 <= p < q + 1 && #[trigger] generic_absent_at(*m, d as int, name@, strs(list@[p]@))
                implies has_key(found@, closed_world_id(name@, strs(list@[p]@))) by {
                if p < q {
                    lemma_found_grows(fb, found@, closed_world_id(name@, strs(list@[p]@)));
                }
            };
        }
        q = q + 1;
    }
    proof {
        assert forall|t: Seq<Seq<char>>| #[trigger] generic_absent_at(*m, d as int, name@, t) implies has_key(found@, closed_world_id(name@, t)) by {
            assert(tuple_listed(list@, t));
            let p = choose|p: int| 0 <= p < list@.len() && strs((#[trigger] list@[p])@) == t;
        };
    }
}

fn generic_absences(m: &ProjectModel) -> (r: Vec<ProjectFact>)
    ensures
        forall|x: ProjectFact| #[trigger] r@.contains(x) ==> exists|relation: Seq<char>, t: Seq<Seq<char>>|
            #[trigger] generic_absent(*m, relation, t) && closed_world_fact(relation, t, x),
        forall|k: Seq<char>| #[trigger] has_key(r@, k) <==> closed_world_key(*m, k),
{
    let mut found: Vec<ProjectFact> = Vec::new();
    let mut d: usize = 0;
    while d < m.declarations.len()
        invariant
            d <= m.declarations@.len(),
            forall|x: ProjectFact| #[trigger] found@.contains(x) ==> exists|relation: Seq<char>, t: Seq<Seq<char>>|
                #[trigger] generic_absent(*m, relation, t) && closed_world_fact(relation, t, x),
            forall|r: int, relation: Seq<char>, t: Seq<Seq<char>>| 0 <= r < d && #[trigger] generic_absent_at(*m, r, relation, t)
                ==> has_key(found@, closed_world_id(relation, t)),
        decreases m.declarations.len() - d,
    {
        let ghost fb = found@;
        match &m.declarations[d] {
            IntentDeclaration::Relation { name, arguments } => {
                if !str_eq(name.as_str(), "declares_direct_dependency") {
                    relation_absences(m, d, name, arguments, &mut found);
                    proof {
                        assert forall|r: int, relation: Seq<char>, t: Seq<Seq<char>>| 0 <= r < d + 1 && #[trigger] generic_absent_at(*m, r, relation, t)
                            implies has_key(found@, closed_world_id(relation, t)) by {
                            if r < d {
                                lemma_found_grows(fb, found@, closed_world_id(relation, t));
                            }
                        };
                    }
                }
            },
            _ => {},
        }
        d = d + 1;
    }
    proof {
        assert forall|k: Seq<char>| #[trigger] has_key(found@, k) <==> closed_world_key(*m, k) by {
            if has_key(found@, k) {
                let j = choose|j: int| 0 <= j < found@.len() && #[trigger] found@[j].key() == k;
                assert(found@.contains(found@[j]));
                let (relation, t) = choose|relation: Seq<char>, t: Seq<Seq<char>>|
                    #[trigger] generic_absent(*m, relation, t) && closed_world_fact(relation, t, found@[j]);
                assert(closed_world_key(*m, k));
            }
            if closed_world_key(*m, k) {
                let (relation, t) = choose|relation: Seq<char>, t: Seq<Seq<char>>| #[trigger] generic_absent(*m, relation, t) && k == closed_world_id(relation, t);
                let r = choose|r: int| #[trigger] generic_absent_at(*m, r, relation, t);
            }
        };
    }
    found
}

/// Adds, for every declared relation (but direct dependency declarations) whose
/// argument types are entity types, the absence of each tuple over their members
/// that no true fact states and a closed completeness claim covers; each absence
/// gets an edge from every PostgreSQL migration artifact.
#[verifier::spinoff_prover]
#[verifier::rlimit(40)]
pub(crate) fn apply_generic_closed_world_facts(model: &mut ProjectModel)
    requires
        strictly_sorted(old(model).facts@),
        strictly_sorted(old(model).edges@),
    ensures
        generically_closed(*old(model), *final(model)),
{
    let ghost m0 = *model;
    let found = generic_absences(model);
    let mut edges: Vec<GraphEdge> = Vec::new();
    let mut a: usize = 0;
    while a < model.artifacts.len()
        invariant
            *model == m0,
            a <= m0.artifacts@.len(),
            forall|k: Seq<char>| #[trigger] has_key(found@, k) <==> closed_world_key(m0, k),
            forall|k: Seq<char>| #[trigger] has_key(edges@, k) <==> exists|a2: int, x: Seq<char>|
                0 <= a2 < a && #[trigger] is_migration(m0, a2) && #[trigger] closed_world_key(m0, x)
                    && k == crate::project::edge_json_parts("Artifact"@, m0.artifacts@[a2].id.0@, LinkKind::Produces, "Fact"@, x),
        decreases m0.artifacts@.len() - a,
    {
        let art = &model.artifacts[a];
        if str_eq(art.kind.as_str(), "postgres_migration") {
            let ghost e0 = edges@;
            let mut j: usize = 0;
            while j < found.len()
                invariant
                    *model == m0,
                    a < m0.artifacts@.len(),
                    art == m0.artifacts@[a as int],
                    is_migration(m0, a as int),
                    j <= found@.len(),
                    forall|k: Seq<char>| #[trigger] has_key(found@, k) <==> closed_world_key(m0, k),
                    forall|k: Seq<char>| #[trigger] has_key(edges@, k) <==> (has_key(e0, k) || exists|j2: int|
                        0 <= j2 < j && k == crate::project::edge_json_parts("Artifact"@, art.id.0@, LinkKind::Produces, "Fact"@, (#[trigger] found@[j2]).id.0@)),
                decreases found@.len() - j,
            {
                let e = GraphEdge {
                    from: GraphNode::Artifact(art.id.clone()),
                    kind: LinkKind::Produces,
                    to: GraphNode::Fact(found[j].id.clone()),
                };
                let ghost eb = edges@;
                proof {
                    assert(e.key() == crate::project::edge_json_parts("Artifact"@, art.id.0@, LinkKind::Produces, "Fact"@, found@[j as int].id.0@));
                }
                edges.push(e);
                proof {
                    assert forall|k: Seq<char>| #[trigger] has_key(edges@, k) <==> (has_key(e0, k) || exists|j2: int|
                        0 <= j2 < j + 1 && k == crate::project::edge_json_parts("Artifact"@, art.id.0@, LinkKind::Produces, "Fact"@, (#[trigger] found@[j2]).id.0@)) by {
                        if has_key(edges@, k) {
                            let i = choose|i: int| 0 <= i < edges@.len() && #[trigger] edges@[i].key() == k;
                            if i < eb.len() {
                                assert(eb[i].key() == k);
                                assert(has_key(eb, k));
                            }
                        }
                        if has_key(e0, k) || exists|j2: int| 0 <= j2 < j && k == crate::project::edge_json_parts("Artifact"@, art.id.0@, LinkKind::Produces, "Fact"@, (#[trigger] found@[j2]).id.0@) {
                            assert(has_key(eb, k));
                            let i = choose|i: int| 0 <= i < eb.len() && #[trigger] eb[i].key() == k;
                            assert(edges@[i].key() == k);
                        }
                        if k == e.key() {
                            assert(edges@[edges@.len() - 1].key() == k);
                        }
                    };
                }
                j = j + 1;
            }
            proof {
                assert forall|k: Seq<char>| #[trigger] has_key(edges@, k) <==> exists|a2: int, x: Seq<char>|
                    0 <= a2 < a + 1 && #[trigger] is_migration(m0, a2) && #[trigger] closed_world_key(m0, x)
                        && k == crate::project::edge_json_parts("Artifact"@, m0.artifacts@[a2].id.0@, LinkKind::Produces, "Fact"@, x) by {
                    if exists|j2: int| 0 <= j2 < found@.len() && k == crate::project::edge_json_parts("Artifact"@, art.id.0@, LinkKind::Produces, "Fact"@, (#[trigger] found@[j2]).id.0@) {
                        let j2 = choose|j2: int| 0 <= j2 < found@.len() && k == crate::project::edge_json_parts("Artifact"@, art.id.0@, LinkKind::Produces, "Fact"@, (#[trigger] found@[j2]).id.0@);
                        assert(has_key(found@, found@[j2].key()));
                        assert(closed_world_key(m0, found@[j2].id.0@));
                    }
                    if exists|a2: int, x: Seq<char>| 0 <= a2 < a + 1 && #[trigger] is_migration(m0, a2) && #[trigger] closed_world_key(m0, x)
                        && k == crate::project::edge_json_parts("Artifact"@, m0.artifacts@[a2].id.0@, LinkKind::Produces, "Fact"@, x) {
                        let (a2, x) = choose|a2: int, x: Seq<char>| 0 <= a2 < a + 1 && #[trigger] is_migration(m0, a2) && #[trigger] closed_world_key(m0, x)
                            && k == crate::project::edge_json_parts("Artifact"@, m0.artifacts@[a2].id.0@, LinkKind::Produces, "Fact"@, x);
                        if a2 == a {
                            assert(has_key(found@, x));
                            let j2 = choose|j2: int| 0 <= j2 < found@.len() && #[trigger] found@[j2].key() == x;
                            assert(k == crate::project::edge_json_parts("Artifact"@, art.id.0@, LinkKind::Produces, "Fact"@, found@[j2].id.0@));
                        }
                    }
                };
            }
        } else {
            proof {
                assert forall|k: Seq<char>| #[trigger] has_key(edges@, k) <==> exists|a2: int, x: Seq<char>|
                    0 <= a2 < a + 1 && #[trigger] is_migration(m0, a2) && #[trigger] closed_world_key(m0, x)
                        && k == crate::project::edge_json_parts("Artifact"@, m0.artifacts@[a2].id.0@, LinkKind::Produces, "Fact"@, x) by {
                    if exists|a2: int, x: Seq<char>| 0 <= a2 < a + 1 && #[trigger] is_migration(m0, a2) && #[trigger] closed_world_key(m0, x)
                        && k == crate::project::edge_json_parts("Artifact"@, m0.artifacts@[a2].id.0@, LinkKind::Produces, "Fact"@, x) {
                        let (a2, x) = choose|a2: int, x: Seq<char>| 0 <= a2 < a + 1 && #[trigger] is_migration(m0, a2) && #[trigger] closed_world_key(m0, x)
                            && k == crate::project::edge_json_parts("Artifact"@, m0.artifacts@[a2].id.0@, LinkKind::Produces, "Fact"@, x);
                        assert(a2 != a);
                    }
                };
            }
        }
        a = a + 1;
    }
    let ghost fv = found@;
    crate::keyed::upsert_all(&mut model.facts, found);
    let ghost ev = edges@;
    crate::keyed::upsert_all(&mut model.edges, edges);
    proof {
        assert forall|x: ProjectFact| #[trigger] m0.facts@.contains(x) && !closed_world_key(m0, x.id.0@) implies model.facts@.contains(x) by {
            assert(has_key(m0.facts@, x.key())) by {
                let i = choose|i: int| 0 <= i < m0.facts@.len() && m0.facts@[i] == x;
                assert(m0.facts@[i].key() == x.key());
            };
            assert(has_key(model.facts@, x.key()));
            let i = choose|i: int| 0 <= i < model.facts@.len() && #[trigger] model.facts@[i].key() == x.key();
            let y = model.facts@[i];
            assert(model.facts@.contains(y));
            assert(!has_key(fv, x.key()));
            if fv.contains(y) {
                let q = choose|q: int| 0 <= q < fv.len() && fv[q] == y;
                assert(fv[q].key() == x.key());
            }
            crate::keyed::lemma_sorted_unique_key(m0.facts@, x, y);
        };
        assert forall|k: Seq<char>| #[trigger] has_key(model.edges@, k) <==> (has_key(m0.edges@, k) || migration_edge_key(m0, k)) by {
            if has_key(ev, k) {
                let (a2, x) = choose|a2: int, x: Seq<char>| 0 <= a2 < m0.artifacts@.len() && #[trigger] is_migration(m0, a2) && #[trigger] closed_world_key(m0, x)
                    && k == crate::project::edge_json_parts("Artifact"@, m0.artifacts@[a2].id.0@, LinkKind::Produces, "Fact"@, x);
                assert(migration_edge_key(m0, k));
            }
            if migration_edge_key(m0, k) {
                let (a2, x) = choose|a2: int, x: Seq<char>| #[trigger] is_migration(m0, a2) && #[trigger] closed_world_key(m0, x)
                    && k == crate::project::edge_json_parts("Artifact"@, m0.artifacts@[a2].id.0@, LinkKind::Produces, "Fact"@, x);
                assert(0 <= a2 < m0.artifacts@.len());
            }
        };
    }
}

} // verus!
