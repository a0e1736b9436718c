//! What a check records reads back: evidence recorded for a model's consistency
//! obligation, assessed against the same model, inputs and file contents, is
//! current and gives the recorded result.
use vstd::prelude::*;
use crate::keyed::{Keyed, has_key, strictly_sorted};
use crate::project::{GraphEdge, GraphNode, LinkKind, ProjectFact, ProjectModel, edge_json, node_id, node_variant};
use crate::roots::SemanticInput;
use crate::evidence::InputFingerprint;
use crate::text::{seq_lt, lemma_lt_irreflexive, lemma_lt_transitive};
use crate::keyed::set_has;
use crate::adr::{SDecl, strs};
use crate::smt::{SmtSymbols, symbols_of};

verus! {

/// Two strictly sorted sequences with the same keys have them in the same order.
pub proof fn lemma_sorted_same_keys<T: Keyed>(a: Seq<T>, b: Seq<T>)
    requires
        strictly_sorted(a),
        strictly_sorted(b),
        forall|k: Seq<char>| #[trigger] has_key(a, k) <==> has_key(b, k),
    ensures
        a.len() == b.len(),
        forall|i: int| 0 <= i < a.len() ==> (#[trigger] a[i]).key() == b[i].key(),
    decreases a.len() + b.len(),
{
    if a.len() == 0 {
        if b.len() > 0 {
            assert(has_key(b, b[0].key()));
            assert(has_key(a, b[0].key()));
        }
    } else if b.len() == 0 {
        assert(has_key(a, a[0].key()));
        assert(has_key(b, a[0].key()));
    } else {
        assert(has_key(a, a[0].key()));
        assert(has_key(b, a[0].key()));
        let q = choose|q: int| 0 <= q < b.len() && #[trigger] b[q].key() == a[0].key();
        assert(has_key(b, b[0].key()));
        assert(has_key(a, b[0].key()));
        let p = choose|p: int| 0 <= p < a.len() && #[trigger] a[p].key() == b[0].key();
        if q > 0 {
            assert(seq_lt(b[0].key(), b[q].key()));
            if p > 0 {
                assert(seq_lt(a[0].key(), a[p].key()));
                lemma_lt_transitive(a[0].key(), b[0].key(), a[0].key());
            }
            lemma_lt_irreflexive(a[0].key());
        }
        assert(b[0].key() == a[0].key());
        let a1 = a.drop_first();
        let b1 = b.drop_first();
        assert forall|k: Seq<char>| #[trigger] has_key(a1, k) <==> has_key(b1, k) by {
            if has_key(a1, k) {
                let i = choose|i: int| 0 <= i < a1.len() && #[trigger] a1[i].key() == k;
                assert(a[i + 1].key() == k);
                assert(seq_lt(a[0].key(), a[i + 1].key()));
                assert(has_key(a, k));
                assert(has_key(b, k));
                let j = choose|j: int| 0 <= j < b.len() && #[trigger] b[j].key() == k;
                if j == 0 {
                    lemma_lt_irreflexive(k);
                }
                assert(b1[j - 1].key() == k);
            }
            if has_key(b1, k) {
                let i = choose|i: int| 0 <= i < b1.len() && #[trigger] b1[i].key() == k;
                assert(b[i + 1].key() == k);
                assert(seq_lt(b[0].key(), b[i + 1].key()));
                assert(has_key(b, k));
                assert(has_key(a, k));
                let j = choose|j: int| 0 <= j < a.len() && #[trigger] a[j].key() == k;
                if j == 0 {
                    lemma_lt_irreflexive(k);
                }
                assert(a1[j - 1].key() == k);
            }
        };
        assert forall|i: int, j: int| 0 <= i < j < a1.len() implies seq_lt(#[trigger] a1[i].key(), #[trigger] a1[j].key()) by {
            assert(a1[i] == a[i + 1] && a1[j] == a[j + 1]);
        };
        assert forall|i: int, j: int| 0 <= i < j < b1.len() implies seq_lt(#[trigger] b1[i].key(), #[trigger] b1[j].key()) by {
            assert(b1[i] == b[i + 1] && b1[j] == b[j + 1]);
        };
        lemma_sorted_same_keys(a1, b1);
        assert forall|i: int| 0 <= i < a.len() implies (#[trigger] a[i]).key() == b[i].key() by {
            if i > 0 {
                assert(a[i] == a1[i - 1]);
                assert(b[i] == b1[i - 1]);
            }
        };
    }
}

/// Two edge lists hold edges with the same JSON texts.
pub open spec fn same_edge_keys(a: Seq<GraphEdge>, b: Seq<GraphEdge>) -> bool {
    forall|k: Seq<char>| #[trigger] has_key(a, k) <==> has_key(b, k)
}

/// The parts of an edge as text.
pub open spec fn edge_parts(x: GraphEdge) -> (Seq<char>, Seq<char>, LinkKind, Seq<char>, Seq<char>) {
    (node_variant(x.from), node_id(x.from), x.kind, node_variant(x.to), node_id(x.to))
}

proof fn lemma_edge_in_other(a: Seq<GraphEdge>, b: Seq<GraphEdge>, x: GraphEdge) -> (y: GraphEdge)
    requires
        same_edge_keys(a, b),
        a.contains(x),
    ensures
        b.contains(y),
        edge_parts(y) == edge_parts(x),
{
    let i = choose|i: int| 0 <= i < a.len() && a[i] == x;
    assert(a[i].key() == edge_json(x));
    assert(has_key(a, edge_json(x)));
    assert(has_key(b, edge_json(x)));
    let j = choose|j: int| 0 <= j < b.len() && #[trigger] b[j].key() == edge_json(x);
    crate::edge_text::lemma_edge_json_injective(b[j], x);
    b[j]
}

/// A relevance edge, by its parts.
pub open spec fn relevance_parts(x: GraphEdge, fid: Seq<char>) -> bool {
    edge_parts(x).0 == "Fact"@ && edge_parts(x).1 == fid && edge_parts(x).2 == LinkKind::RelevantTo && edge_parts(x).3 == "Constraint"@
}

proof fn lemma_relevance_parts(x: GraphEdge, f: ProjectFact)
    ensures
        crate::smt::relevance_edge(x, f) <==> relevance_parts(x, f.id.0@),
        (x.kind == LinkKind::RelevantTo && (x.from matches GraphNode::Fact(id) && id.0@ == f.id.0@)) <==> (edge_parts(x).0 == "Fact"@
            && edge_parts(x).1 == f.id.0@ && edge_parts(x).2 == LinkKind::RelevantTo),
{
    crate::edge_text::lemma_node_variant_names(x.from);
    crate::edge_text::lemma_node_variant_names(x.to);
}

/// Whether a fact is relevant depends only on the texts of the edges.
pub proof fn lemma_relevant_fact_same(a: Seq<GraphEdge>, b: Seq<GraphEdge>, f: ProjectFact)
    requires
        same_edge_keys(a, b),
    ensures
        crate::smt::relevant_fact(a, f) <==> crate::smt::relevant_fact(b, f),
{
    if crate::smt::relevant_fact(a, f) {
        let j = choose|j: int| 0 <= j < a.len() && crate::smt::relevance_edge(#[trigger] a[j], f);
        assert(a.contains(a[j]));
        let y = lemma_edge_in_other(a, b, a[j]);
        lemma_relevance_parts(a[j], f);
        lemma_relevance_parts(y, f);
        let q = choose|q: int| 0 <= q < b.len() && b[q] == y;
        assert(crate::smt::relevance_edge(b[q], f));
    }
    if crate::smt::relevant_fact(b, f) {
        let j = choose|j: int| 0 <= j < b.len() && crate::smt::relevance_edge(#[trigger] b[j], f);
        assert(b.contains(b[j]));
        assert(same_edge_keys(b, a));
        let y = lemma_edge_in_other(b, a, b[j]);
        lemma_relevance_parts(b[j], f);
        lemma_relevance_parts(y, f);
        let q = choose|q: int| 0 <= q < a.len() && a[q] == y;
        assert(crate::smt::relevance_edge(a[q], f));
    }
}

/// Two models with the same constraints, facts and coverage, and edges with the
/// same texts.
pub open spec fn same_up_to_edges(a: ProjectModel, b: ProjectModel) -> bool {
    &&& a.artifacts == b.artifacts
    &&& a.decisions == b.decisions
    &&& a.constraints == b.constraints
    &&& a.facts == b.facts
    &&& a.declarations == b.declarations
    &&& a.fact_coverage == b.fact_coverage
    &&& same_edge_keys(a.edges@, b.edges@)
}

proof fn lemma_relevant_identity_one_way(a: ProjectModel, b: ProjectModel, x: Seq<char>)
    requires
        same_up_to_edges(a, b),
        crate::loading::relevant_identity(a, x),
    ensures
        crate::loading::relevant_identity(b, x),
{
    if !(exists|i: int| 0 <= i < a.constraints@.len() && (#[trigger] a.constraints@[i]).provenance.source@ == x) {
        let (e, f) = choose|e: int, f: int|
            #![trigger a.edges@[e], a.facts@[f]]
            0 <= e < a.edges@.len() && 0 <= f < a.facts@.len() && a.edges@[e].kind == LinkKind::RelevantTo
                && (a.edges@[e].from matches GraphNode::Fact(id) && id.0@ == a.facts@[f].id.0@)
                && a.facts@[f].provenance.source@ == x;
        assert(a.edges@.contains(a.edges@[e]));
        let y = lemma_edge_in_other(a.edges@, b.edges@, a.edges@[e]);
        lemma_relevance_parts(a.edges@[e], a.facts@[f]);
        lemma_relevance_parts(y, a.facts@[f]);
        let q = choose|q: int| 0 <= q < b.edges@.len() && b.edges@[q] == y;
        assert(b.facts@[f] == a.facts@[f]);
        assert(b.edges@[q].kind == LinkKind::RelevantTo && (b.edges@[q].from matches GraphNode::Fact(id) && id.0@ == b.facts@[f].id.0@)
            && b.facts@[f].provenance.source@ == x);
    } else {
        let i = choose|i: int| 0 <= i < a.constraints@.len() && (#[trigger] a.constraints@[i]).provenance.source@ == x;
        assert(b.constraints@[i] == a.constraints@[i]);
    }
}

/// Which inputs a model selects depends only on its constraints, facts, coverage
/// and the texts of its edges.
pub proof fn lemma_selected_same(a: ProjectModel, b: ProjectModel, s: SemanticInput)
    requires
        same_up_to_edges(a, b),
    ensures
        crate::loading::selected_input(a, s) <==> crate::loading::selected_input(b, s),
{
    if crate::loading::relevant_identity(a, s.identity@) {
        lemma_relevant_identity_one_way(a, b, s.identity@);
    }
    if crate::loading::relevant_identity(b, s.identity@) {
        lemma_relevant_identity_one_way(b, a, s.identity@);
    }
    assert(crate::loading::uses_sql(a) == crate::loading::uses_sql(b));
}

/// The relevant inputs are the same for models that select the same inputs.
pub proof fn lemma_relevant_inputs_unique(a: ProjectModel, b: ProjectModel, fallback: Seq<SemanticInput>, r1: Seq<SemanticInput>, r2: Seq<SemanticInput>)
    requires
        same_up_to_edges(a, b),
        crate::loading::relevant_inputs_of(a, fallback, r1),
        crate::loading::relevant_inputs_of(b, fallback, r2),
    ensures
        r1 == r2,
{
    assert forall|s: SemanticInput| crate::loading::selected_input(a, s) <==> crate::loading::selected_input(b, s) by {
        lemma_selected_same(a, b, s);
    };
    let any_a = exists|i: int| 0 <= i < fallback.len() && crate::loading::selected_input(a, #[trigger] fallback[i]);
    let any_b = exists|i: int| 0 <= i < fallback.len() && crate::loading::selected_input(b, #[trigger] fallback[i]);
    assert(any_a == any_b) by {
        if any_a {
            let i = choose|i: int| 0 <= i < fallback.len() && crate::loading::selected_input(a, #[trigger] fallback[i]);
            assert(crate::loading::selected_input(b, fallback[i]));
        }
        if any_b {
            let i = choose|i: int| 0 <= i < fallback.len() && crate::loading::selected_input(b, #[trigger] fallback[i]);
            assert(crate::loading::selected_input(a, fallback[i]));
        }
    };
    assert forall|k: Seq<char>| #[trigger] has_key(r1, k) <==> has_key(r2, k) by {
        if has_key(r1, k) {
            let i = choose|i: int| 0 <= i < fallback.len() && (!any_a || crate::loading::selected_input(a, #[trigger] fallback[i]))
                && fallback[i].identity@ == k;
            assert(!any_b || crate::loading::selected_input(b, fallback[i]));
        }
        if has_key(r2, k) {
            let i = choose|i: int| 0 <= i < fallback.len() && (!any_b || crate::loading::selected_input(b, #[trigger] fallback[i]))
                && fallback[i].identity@ == k;
            assert(!any_a || crate::loading::selected_input(a, fallback[i]));
        }
    };
    lemma_sorted_same_keys(r1, r2);
    assert forall|i: int| 0 <= i < r1.len() implies r1[i] == r2[i] by {
        assert(r1.contains(r1[i]));
        assert(r2.contains(r2[i]));
        let p = choose|p: int| 0 <= p < fallback.len() && fallback[p] == r1[i] && (!any_a || crate::loading::selected_input(a, r1[i]))
            && forall|j: int| 0 <= j < p && (!any_a || crate::loading::selected_input(a, #[trigger] fallback[j])) ==> fallback[j].identity@ != r1[i].identity@;
        let q = choose|q: int| 0 <= q < fallback.len() && fallback[q] == r2[i] && (!any_b || crate::loading::selected_input(b, r2[i]))
            && forall|j: int| 0 <= j < q && (!any_b || crate::loading::selected_input(b, #[trigger] fallback[j])) ==> fallback[j].identity@ != r2[i].identity@;
        assert(r1[i].key() == r2[i].key());
        if p < q {
            assert(!any_b || crate::loading::selected_input(b, fallback[p]));
        }
        if q < p {
            assert(!any_a || crate::loading::selected_input(a, fallback[q]));
        }
    };
    assert(r1 =~= r2);
}

/// An input taken from the candidates of `rel` is one of them.
proof fn lemma_input_from_rel(rel: Seq<SemanticInput>, u: Seq<SemanticInput>, i: int) -> (p: int)
    requires
        crate::assembly::from_candidates(crate::assembly::input_pairs(rel), u),
        0 <= i < u.len(),
    ensures
        0 <= p < rel.len(),
        rel[p].identity@ == u[i].identity@,
        rel[p].path@ == u[i].path@,
{
    reveal(crate::assembly::from_candidates);
    let cands = crate::assembly::input_pairs(rel);
    assert(u.contains(u[i]));
    assert(cands.contains((u[i].identity@, u[i].path@)));
    let p = choose|p: int| 0 <= p < cands.len() && cands[p] == (u[i].identity@, u[i].path@);
    p
}

/// Every identity among the candidates of `rel` has an input in `u`.
proof fn lemma_rel_covered(rel: Seq<SemanticInput>, u: Seq<SemanticInput>, p: int) -> (j: int)
    requires
        crate::assembly::covers_candidates(crate::assembly::input_pairs(rel), u),
        0 <= p < rel.len(),
    ensures
        0 <= j < u.len(),
        u[j].identity@ == rel[p].identity@,
{
    reveal(crate::assembly::covers_candidates);
    let cands = crate::assembly::input_pairs(rel);
    assert(cands[p] == (rel[p].identity@, rel[p].path@));
    assert(cands.contains(cands[p]));
    let x = choose|x: SemanticInput| #[trigger] u.contains(x) && x.identity@ == cands[p].0 && crate::text::seq_le(x.path@, cands[p].1);
    let j = choose|j: int| 0 <= j < u.len() && u[j] == x;
    j
}

/// The inputs taken from candidates with distinct identities are the same, up to
/// their views.
pub proof fn lemma_inputs_of_unique(rel: Seq<SemanticInput>, u1: Seq<SemanticInput>, u2: Seq<SemanticInput>)
    requires
        strictly_sorted(rel),
        crate::assembly::inputs_of(crate::assembly::input_pairs(rel), u1),
        crate::assembly::inputs_of(crate::assembly::input_pairs(rel), u2),
    ensures
        crate::assembly::input_pairs(u1) == crate::assembly::input_pairs(u2),
{
    assert forall|k: Seq<char>| #[trigger] has_key(u1, k) <==> has_key(u2, k) by {
        if has_key(u1, k) {
            let i = choose|i: int| 0 <= i < u1.len() && #[trigger] u1[i].key() == k;
            let p = lemma_input_from_rel(rel, u1, i);
            let j = lemma_rel_covered(rel, u2, p);
            assert(u2[j].key() == k);
        }
        if has_key(u2, k) {
            let i = choose|i: int| 0 <= i < u2.len() && #[trigger] u2[i].key() == k;
            let p = lemma_input_from_rel(rel, u2, i);
            let j = lemma_rel_covered(rel, u1, p);
            assert(u1[j].key() == k);
        }
    };
    lemma_sorted_same_keys(u1, u2);
    assert forall|i: int| 0 <= i < u1.len() implies crate::assembly::input_pairs(u1)[i] == crate::assembly::input_pairs(u2)[i] by {
        let p = lemma_input_from_rel(rel, u1, i);
        let q = lemma_input_from_rel(rel, u2, i);
        assert(u1[i].key() == u2[i].key());
        assert(rel[p].key() == rel[q].key());
        if p < q {
            assert(seq_lt(rel[p].key(), rel[q].key()));
            lemma_lt_irreflexive(rel[p].key());
        }
        if q < p {
            assert(seq_lt(rel[q].key(), rel[p].key()));
            lemma_lt_irreflexive(rel[q].key());
        }
    };
    assert(crate::assembly::input_pairs(u1) =~= crate::assembly::input_pairs(u2));
}

/// Fingerprints taken of the same inputs from the same bytes are the same.
pub proof fn lemma_fingerprinted_unique(u1: Seq<SemanticInput>, u2: Seq<SemanticInput>, contents: Seq<(String, Vec<u8>)>, f1: Seq<InputFingerprint>, f2: Seq<InputFingerprint>)
    requires
        crate::assembly::input_pairs(u1) == crate::assembly::input_pairs(u2),
        crate::assembly::fingerprinted(u1, contents, f1),
        crate::assembly::fingerprinted(u2, contents, f2),
    ensures
        crate::evidence::fingerprint_views(f1) == crate::evidence::fingerprint_views(f2),
{
    assert(u1.len() == crate::assembly::input_pairs(u1).len());
    assert forall|j: int| 0 <= j < f1.len() implies crate::evidence::fingerprint_views(f1)[j] == crate::evidence::fingerprint_views(f2)[j] by {
        assert(crate::assembly::input_pairs(u1)[j] == crate::assembly::input_pairs(u2)[j]);
        assert(f1[j].source@ == u1[j].identity@);
        assert(f2[j].source@ == u2[j].identity@);
    };
    assert(crate::evidence::fingerprint_views(f1) =~= crate::evidence::fingerprint_views(f2));
}

/// The fingerprint map depends only on the fingerprints' views.
pub proof fn lemma_fingerprint_map_views(a: Seq<InputFingerprint>, b: Seq<InputFingerprint>)
    requires
        crate::evidence::fingerprint_views(a) == crate::evidence::fingerprint_views(b),
    ensures
        crate::evidence::fingerprint_map(a) == crate::evidence::fingerprint_map(b),
    decreases a.len(),
{
    assert(a.len() == crate::evidence::fingerprint_views(a).len());
    if a.len() > 0 {
        assert(crate::evidence::fingerprint_views(a.drop_last()) =~= crate::evidence::fingerprint_views(a).drop_last());
        assert(crate::evidence::fingerprint_views(b.drop_last()) =~= crate::evidence::fingerprint_views(b).drop_last());
        lemma_fingerprint_map_views(a.drop_last(), b.drop_last());
        assert(crate::evidence::fingerprint_views(a)[a.len() - 1] == crate::evidence::fingerprint_views(b)[a.len() - 1]);
    }
}


/// Two strictly sorted lists of strings with the same members are the same texts.
pub proof fn lemma_same_strings(a: Seq<String>, b: Seq<String>)
    requires
        strictly_sorted(a),
        strictly_sorted(b),
        forall|n: Seq<char>| #[trigger] set_has(a, n) <==> set_has(b, n),
    ensures
        strs(a) == strs(b),
{
    assert forall|k: Seq<char>| #[trigger] has_key(a, k) <==> has_key(b, k) by {
        if has_key(a, k) {
            let i = choose|i: int| 0 <= i < a.len() && #[trigger] a[i].key() == k;
            assert(a[i]@ == k);
            assert(set_has(a, k));
            assert(set_has(b, k));
            let j = choose|j: int| 0 <= j < b.len() && #[trigger] b[j]@ == k;
            assert(b[j].key() == k);
        }
        if has_key(b, k) {
            let i = choose|i: int| 0 <= i < b.len() && #[trigger] b[i].key() == k;
            assert(b[i]@ == k);
            assert(set_has(b, k));
            assert(set_has(a, k));
            let j = choose|j: int| 0 <= j < a.len() && #[trigger] a[j]@ == k;
            assert(a[j].key() == k);
        }
    };
    lemma_sorted_same_keys(a, b);
    assert forall|i: int| 0 <= i < a.len() implies strs(a)[i] == strs(b)[i] by {
        assert(a[i].key() == b[i].key());
    };
    assert(strs(a) =~= strs(b));
}

/// The symbol tables of one vocabulary declare it in the same text, give the same
/// entity types with the same members, and the same relations.
pub proof fn lemma_symbols_unique(t1: SmtSymbols, t2: SmtSymbols, d: Seq<SDecl>)
    requires
        symbols_of(t1, d),
        symbols_of(t2, d),
    ensures
        crate::smt::declarations_text(t1) == crate::smt::declarations_text(t2),
        crate::smt::entity_views(t1.entities@) == crate::smt::entity_views(t2.entities@),
        forall|k: Seq<char>| #[trigger] has_key(t1.relations@, k) <==> has_key(t2.relations@, k),
{
    assert forall|n: Seq<char>| #[trigger] set_has(t1.bools@, n) <==> set_has(t2.bools@, n) by {
        assert(set_has(t1.bools@, n) <==> crate::typecheck::is_bool(d, n));
        assert(set_has(t2.bools@, n) <==> crate::typecheck::is_bool(d, n));
    };
    lemma_same_strings(t1.bools@, t2.bools@);
    let e1 = t1.entities@;
    let e2 = t2.entities@;
    assert forall|k: Seq<char>| #[trigger] has_key(e1, k) <==> has_key(e2, k) by {
        assert(has_key(e1, k) <==> crate::typecheck::is_entity(d, k));
        assert(has_key(e2, k) <==> crate::typecheck::is_entity(d, k));
    };
    lemma_sorted_same_keys(e1, e2);
    assert forall|i: int| 0 <= i < e1.len() implies #[trigger] strs(e1[i].members@) == strs(e2[i].members@) by {
        assert(e1[i].key() == e2[i].key());
        assert(strictly_sorted(e1[i].members@));
        assert(strictly_sorted(e2[i].members@));
        assert forall|m: Seq<char>| #[trigger] set_has(e1[i].members@, m) <==> set_has(e2[i].members@, m) by {
            assert(set_has(e1[i].members@, m) <==> crate::typecheck::is_member(d, e1[i].name@, m));
            assert(set_has(e2[i].members@, m) <==> crate::typecheck::is_member(d, e2[i].name@, m));
        };
        lemma_same_strings(e1[i].members@, e2[i].members@);
    };
    assert(crate::smt::entity_views(e1) =~= crate::smt::entity_views(e2)) by {
        assert forall|i: int| 0 <= i < e1.len() implies crate::smt::entity_views(e1)[i] == crate::smt::entity_views(e2)[i] by {
            assert(e1[i].key() == e2[i].key());
            assert(strs(e1[i].members@) == strs(e2[i].members@));
        };
    };
    let r1 = t1.relations@;
    let r2 = t2.relations@;
    assert forall|k: Seq<char>| #[trigger] has_key(r1, k) <==> has_key(r2, k) by {
        assert(has_key(r1, k) <==> crate::typecheck::relation_sig(d, k) is Some);
        assert(has_key(r2, k) <==> crate::typecheck::relation_sig(d, k) is Some);
    };
    lemma_sorted_same_keys(r1, r2);
    let de1 = e1.map_values(|e: crate::smt::EntitySet| crate::smt::declare_entity(e));
    let de2 = e2.map_values(|e: crate::smt::EntitySet| crate::smt::declare_entity(e));
    assert(de1 =~= de2) by {
        assert forall|i: int| 0 <= i < e1.len() implies de1[i] == de2[i] by {
            assert(e1[i].key() == e2[i].key());
            assert(strs(e1[i].members@) == strs(e2[i].members@));
        };
    };
    let db1 = t1.bools@.map_values(|b: String| crate::smt::declare_bool(b));
    let db2 = t2.bools@.map_values(|b: String| crate::smt::declare_bool(b));
    assert(db1 =~= db2) by {
        assert(strs(t1.bools@).len() == t1.bools@.len());
        assert(strs(t2.bools@).len() == t2.bools@.len());
        assert forall|i: int| 0 <= i < db1.len() implies db1[i] == db2[i] by {
            assert(strs(t1.bools@)[i] == strs(t2.bools@)[i]);
            assert(strs(t1.bools@)[i] == t1.bools@[i]@);
            assert(strs(t2.bools@)[i] == t2.bools@[i]@);
        };
    };
    let dr1 = r1.map_values(|r: crate::smt::RelationSig| crate::smt::declare_relation(r));
    let dr2 = r2.map_values(|r: crate::smt::RelationSig| crate::smt::declare_relation(r));
    assert(dr1 =~= dr2) by {
        assert forall|i: int| 0 <= i < r1.len() implies dr1[i] == dr2[i] by {
            assert(r1[i].key() == r2[i].key());
            assert(crate::typecheck::relation_sig(d, r1[i].name@) == Some(strs(r1[i].arguments@)));
            assert(crate::typecheck::relation_sig(d, r2[i].name@) == Some(strs(r2[i].arguments@)));
        };
    };
}

/// The problem generated for an obligation depends only on its vocabulary,
/// constraints, facts and the texts of its edges.
pub proof fn lemma_smt_text_unique(
    ob1: crate::lowering::RelationalProofObligation,
    ob2: crate::lowering::RelationalProofObligation,
    x1: Seq<char>,
    x2: Seq<char>,
)
    requires
        same_up_to_edges(ob1.model, ob2.model),
        crate::assembly::smt_text_of(ob1, x1),
        crate::assembly::smt_text_of(ob2, x2),
    ensures
        x1 == x2,
{
    let d = crate::smt::intent_decl_views(ob1.model.declarations@);
    let t1 = choose|t: SmtSymbols| #[trigger] symbols_of(t, d)
        && x1 == crate::smt::smt_header() + crate::smt::declarations_text(t)
            + crate::smt::concat(crate::smt::constraint_asserts(ob1.model.constraints@, crate::smt::entity_views(t.entities@)))
            + crate::smt::concat(crate::smt::fact_asserts(ob1.model, t)) + crate::smt::smt_footer();
    let t2 = choose|t: SmtSymbols| #[trigger] symbols_of(t, d)
        && x2 == crate::smt::smt_header() + crate::smt::declarations_text(t)
            + crate::smt::concat(crate::smt::constraint_asserts(ob2.model.constraints@, crate::smt::entity_views(t.entities@)))
            + crate::smt::concat(crate::smt::fact_asserts(ob2.model, t)) + crate::smt::smt_footer();
    lemma_symbols_unique(t1, t2, d);
    let fa1 = crate::smt::fact_asserts(ob1.model, t1);
    let fa2 = crate::smt::fact_asserts(ob2.model, t2);
    assert(fa1 =~= fa2) by {
        assert forall|i: int| 0 <= i < fa1.len() implies fa1[i] == fa2[i] by {
            let f = ob1.model.facts@[i];
            lemma_relevant_fact_same(ob1.model.edges@, ob2.model.edges@, f);
            assert(has_key(t1.relations@, f.relation@) <==> has_key(t2.relations@, f.relation@));
        };
    };
}

/// The consistency obligations taken of one model have the same name, vocabulary,
/// constraints, facts, coverage and edge texts.
pub proof fn lemma_obligations_agree(
    m: ProjectModel,
    ob1: crate::lowering::RelationalProofObligation,
    ob2: crate::lowering::RelationalProofObligation,
)
    requires
        crate::lowering::is_obligation_of(m, ob1),
        crate::lowering::is_obligation_of(m, ob2),
    ensures
        same_up_to_edges(ob1.model, ob2.model),
        ob1.id.0@ == ob2.id.0@,
{
    assert forall|k: Seq<char>| #[trigger] has_key(ob1.model.edges@, k) <==> has_key(ob2.model.edges@, k) by {
    };
}

/// The latest evidence in a list is at one position only.
proof fn lemma_latest_unique(ev: Seq<crate::evidence::Evidence>, i: int, j: int)
    requires
        crate::evidence::is_latest(ev, i),
        crate::evidence::is_latest(ev, j),
    ensures
        i == j,
{
    if i < j {
        assert(crate::evidence::recorded_before(ev[j], ev[i]));
        assert(!crate::evidence::recorded_before(ev[j], ev[i]));
    }
    if j < i {
        assert(crate::evidence::recorded_before(ev[i], ev[j]));
        assert(!crate::evidence::recorded_before(ev[i], ev[j]));
    }
}

/// Evidence recorded for the consistency obligation of a model reads back: when it
/// is the latest evidence, its fingerprints are those of the obligation's inputs and
/// problem taken from the same inputs and bytes, it was produced under the solver
/// configuration of the same timeout and by a backend whose version mentions the
/// wanted one, then the status assessed for that model is the result it recorded.
pub proof fn law_recorded_evidence_reads_back(
    m: ProjectModel,
    inputs: Seq<SemanticInput>,
    contents: Seq<(String, Vec<u8>)>,
    ob: crate::lowering::RelationalProofObligation,
    evidence: Seq<crate::evidence::Evidence>,
    i: int,
    backend_version: Seq<char>,
    timeout_ms: u64,
    st: crate::evidence::VerificationStatus,
)
    requires
        crate::lowering::is_obligation_of(m, ob),
        crate::evidence::is_latest(evidence, i),
        crate::assembly::current_fingerprints(ob, inputs, contents, evidence[i].inputs@),
        evidence[i].configuration_sha256@ == crate::assembly::solver_configuration(timeout_ms),
        crate::evidence::mentions(evidence[i].backend_version@, backend_version),
        crate::assembly::evidence_status_for(m, inputs, contents, evidence, backend_version, timeout_ms, st),
    ensures
        st == evidence[i].result_at_execution,
{
    let e = evidence[i];
    let (ob2, rel2, u2, fps2, text2, f2) = choose|ob2: crate::lowering::RelationalProofObligation, rel2: Seq<SemanticInput>,
        u2: Seq<SemanticInput>, fps2: Seq<InputFingerprint>, text2: Seq<char>, f2: InputFingerprint| {
        &&& #[trigger] crate::lowering::is_obligation_of(m, ob2)
        &&& #[trigger] crate::loading::relevant_inputs_of(ob2.model, inputs, rel2)
        &&& #[trigger] crate::assembly::inputs_of(crate::assembly::input_pairs(rel2), u2)
        &&& #[trigger] crate::assembly::fingerprinted(u2, contents, fps2)
        &&& #[trigger] crate::assembly::smt_text_of(ob2, text2)
        &&& f2.source@ == "generated:effective.smt2"@
        &&& f2.sha256@ == crate::evidence::sha256_hex(vstd::utf8::encode_utf8(text2))
        &&& #[trigger] crate::assembly::status_from(evidence, fps2.push(f2), backend_version, crate::assembly::solver_configuration(timeout_ms), st)
    };
    let (rel, u, fps, text, f) = choose|rel: Seq<SemanticInput>, u: Seq<SemanticInput>, fps: Seq<InputFingerprint>, text: Seq<char>,
        f: InputFingerprint| {
        &&& #[trigger] crate::loading::relevant_inputs_of(ob.model, inputs, rel)
        &&& #[trigger] crate::assembly::inputs_of(crate::assembly::input_pairs(rel), u)
        &&& #[trigger] crate::assembly::fingerprinted(u, contents, fps)
        &&& #[trigger] crate::assembly::smt_text_of(ob, text)
        &&& #[trigger] crate::assembly::smt_fingerprint(f, text)
        &&& e.inputs@ == fps.push(f)
    };
    lemma_obligations_agree(m, ob, ob2);
    lemma_relevant_inputs_unique(ob.model, ob2.model, inputs, rel, rel2);
    lemma_inputs_of_unique(rel, u, u2);
    lemma_fingerprinted_unique(u, u2, contents, fps, fps2);
    lemma_smt_text_unique(ob, ob2, text, text2);
    let cur = fps2.push(f2);
    assert(crate::evidence::fingerprint_views(e.inputs@) =~= crate::evidence::fingerprint_views(cur)) by {
        assert(fps.len() == crate::evidence::fingerprint_views(fps).len());
        assert(fps2.len() == crate::evidence::fingerprint_views(fps2).len());
        assert forall|j: int| 0 <= j < fps.len() implies crate::evidence::fingerprint_views(e.inputs@)[j] == crate::evidence::fingerprint_views(cur)[j] by {
            assert(crate::evidence::fingerprint_views(fps)[j] == crate::evidence::fingerprint_views(fps2)[j]);
            assert(e.inputs@[j] == fps[j]);
            assert(cur[j] == fps2[j]);
        };
    };
    lemma_fingerprint_map_views(e.inputs@, cur);
    assert(evidence.len() > 0);
    let k = choose|k: int| #[trigger] crate::evidence::is_latest(evidence, k) && st == match crate::evidence::validity_of(evidence[k], cur, backend_version, crate::assembly::solver_configuration(timeout_ms)) {
        crate::evidence::EvidenceValidity::Current => evidence[k].result_at_execution,
        crate::evidence::EvidenceValidity::Stale => crate::evidence::VerificationStatus::Stale,
    };
    lemma_latest_unique(evidence, i, k);
}

/// Bytes are given for the relevant inputs exactly when fingerprinting the relevant
/// inputs, taken from the model, succeeds.
pub proof fn lemma_available_iff(
    ob: crate::lowering::RelationalProofObligation,
    inputs: Seq<SemanticInput>,
    contents: Seq<(String, Vec<u8>)>,
    rel: Seq<SemanticInput>,
    ok: bool,
)
    requires
        crate::loading::relevant_inputs_of(ob.model, inputs, rel),
        exists|u: Seq<SemanticInput>| #[trigger] crate::assembly::inputs_of(crate::assembly::input_pairs(rel), u)
            && (ok <==> forall|j: int| 0 <= j < u.len() ==> crate::assembly::content_of(contents, (#[trigger] u[j]).path@) is Some),
    ensures
        ok <==> crate::assembly::inputs_available(ob, inputs, contents),
{
    let u = choose|u: Seq<SemanticInput>| #[trigger] crate::assembly::inputs_of(crate::assembly::input_pairs(rel), u)
        && (ok <==> forall|j: int| 0 <= j < u.len() ==> crate::assembly::content_of(contents, (#[trigger] u[j]).path@) is Some);
    if ok {
        assert(crate::loading::relevant_inputs_of(ob.model, inputs, rel) && crate::assembly::inputs_of(crate::assembly::input_pairs(rel), u));
    }
    if crate::assembly::inputs_available(ob, inputs, contents) {
        let (rel2, u2) = choose|rel2: Seq<SemanticInput>, u2: Seq<SemanticInput>|
            #[trigger] crate::loading::relevant_inputs_of(ob.model, inputs, rel2) && #[trigger] crate::assembly::inputs_of(crate::assembly::input_pairs(rel2), u2)
                && forall|j: int| 0 <= j < u2.len() ==> crate::assembly::content_of(contents, (#[trigger] u2[j]).path@) is Some;
        assert(same_up_to_edges(ob.model, ob.model));
        lemma_relevant_inputs_unique(ob.model, ob.model, inputs, rel, rel2);
        lemma_inputs_of_unique(rel, u, u2);
        assert forall|j: int| 0 <= j < u.len() implies crate::assembly::content_of(contents, (#[trigger] u[j]).path@) is Some by {
            assert(crate::assembly::input_pairs(u)[j] == crate::assembly::input_pairs(u2)[j]);
            assert(u.len() == crate::assembly::input_pairs(u).len());
            assert(u2[j].path@ == u[j].path@);
        };
    }
}

} // verus!
