//! Shortest paths through the proof graph, as readable edge labels.
use vstd::prelude::*;
use crate::adr::strs;
use crate::project::{GraphEdge, GraphNode, LinkKind};
use crate::text::{cat, cat3, own, seq_lt, str_eq, str_lt};

verus! {

// ---------------------------------------------------------------------------
// Labels
// ---------------------------------------------------------------------------

/// The label of a node: its kind and identifier.
pub open spec fn node_label(n: GraphNode) -> Seq<char> {
    match n {
        GraphNode::Artifact(id) => "artifact:"@ + id.0@,
        GraphNode::Decision(id) => "decision:"@ + id.0@,
        GraphNode::Constraint(id) => "constraint:"@ + id.0@,
        GraphNode::Fact(id) => "fact:"@ + id.0@,
        GraphNode::ProofObligation(id) => "obligation:"@ + id.0@,
        GraphNode::Evidence(id) => "evidence:"@ + id.0@,
    }
}

pub fn node_label_exec(n: &GraphNode) -> (r: String)
    ensures
        r@ == node_label(*n),
{
    match n {
        GraphNode::Artifact(id) => cat("artifact:", id.0.as_str()),
        GraphNode::Decision(id) => cat("decision:", id.0.as_str()),
        GraphNode::Constraint(id) => cat("constraint:", id.0.as_str()),
        GraphNode::Fact(id) => cat("fact:", id.0.as_str()),
        GraphNode::ProofObligation(id) => cat("obligation:", id.0.as_str()),
        GraphNode::Evidence(id) => cat("evidence:", id.0.as_str()),
    }
}

/// The name of a link kind as written in labels.
pub open spec fn kind_name(k: LinkKind) -> Seq<char> {
    match k {
        LinkKind::Contains => "Contains"@,
        LinkKind::Defines => "Defines"@,
        LinkKind::Produces => "Produces"@,
        LinkKind::RelevantTo => "RelevantTo"@,
        LinkKind::ParticipatesIn => "ParticipatesIn"@,
        LinkKind::Implements => "Implements"@,
        LinkKind::DependsOn => "DependsOn"@,
        LinkKind::Supersedes => "Supersedes"@,
        LinkKind::Amends => "Amends"@,
        LinkKind::ExceptionTo => "ExceptionTo"@,
        LinkKind::VerifiedBy => "VerifiedBy"@,
        LinkKind::DerivedFrom => "DerivedFrom"@,
        LinkKind::EvidenceFor => "EvidenceFor"@,
        LinkKind::Requires => "Requires"@,
        LinkKind::RequiredBy => "RequiredBy"@,
    }
}

fn kind_name_exec(k: LinkKind) -> (r: &'static str)
    ensures
        r@ == kind_name(k),
{
    match k {
        LinkKind::Contains => "Contains",
        LinkKind::Defines => "Defines",
        LinkKind::Produces => "Produces",
        LinkKind::RelevantTo => "RelevantTo",
        LinkKind::ParticipatesIn => "ParticipatesIn",
        LinkKind::Implements => "Implements",
        LinkKind::DependsOn => "DependsOn",
        LinkKind::Supersedes => "Supersedes",
        LinkKind::Amends => "Amends",
        LinkKind::ExceptionTo => "ExceptionTo",
        LinkKind::VerifiedBy => "VerifiedBy",
        LinkKind::DerivedFrom => "DerivedFrom",
        LinkKind::EvidenceFor => "EvidenceFor",
        LinkKind::Requires => "Requires",
        LinkKind::RequiredBy => "RequiredBy",
    }
}

/// The label of an edge: `from --Kind--> to`.
pub open spec fn edge_label(e: GraphEdge) -> Seq<char> {
    node_label(e.from) + " --"@ + kind_name(e.kind) + "--> "@ + node_label(e.to)
}

pub fn edge_label_exec(e: &GraphEdge) -> (r: String)
    ensures
        r@ == edge_label(*e),
{
    let from = node_label_exec(&e.from);
    let to = node_label_exec(&e.to);
    let head = cat3(from.as_str(), " --", kind_name_exec(e.kind));
    cat3(head.as_str(), "--> ", to.as_str())
}

// ---------------------------------------------------------------------------
// Lexicographic order on label sequences
// ---------------------------------------------------------------------------

/// Strict lexicographic order on sequences of texts (the order of `Vec<String>`).
pub open spec fn lex_lt(a: Seq<Seq<char>>, b: Seq<Seq<char>>) -> bool
    decreases a.len(),
{
    if a.len() == 0 {
        b.len() > 0
    } else if b.len() == 0 {
        false
    } else if a[0] != b[0] {
        seq_lt(a[0], b[0])
    } else {
        lex_lt(a.drop_first(), b.drop_first())
    }
}

pub proof fn lemma_lex_irreflexive(a: Seq<Seq<char>>)
    ensures
        !lex_lt(a, a),
    decreases a.len(),
{
    if a.len() > 0 {
        lemma_lex_irreflexive(a.drop_first());
    }
}

pub proof fn lemma_lex_transitive(a: Seq<Seq<char>>, b: Seq<Seq<char>>, c: Seq<Seq<char>>)
    requires
        lex_lt(a, b),
        lex_lt(b, c),
    ensures
        lex_lt(a, c),
    decreases a.len(),
{
    if a.len() > 0 && b.len() > 0 && c.len() > 0 {
        if a[0] == b[0] && b[0] == c[0] {
            lemma_lex_transitive(a.drop_first(), b.drop_first(), c.drop_first());
        } else if a[0] != b[0] && b[0] != c[0] {
            crate::text::lemma_lt_transitive(a[0], b[0], c[0]);
            if a[0] == c[0] {
                crate::text::lemma_lt_asymmetric(a[0], b[0]);
            }
        }
    }
}

pub proof fn lemma_lex_total(a: Seq<Seq<char>>, b: Seq<Seq<char>>)
    ensures
        lex_lt(a, b) || lex_lt(b, a) || a == b,
    decreases a.len(),
{
    if a.len() > 0 && b.len() > 0 {
        if a[0] == b[0] {
            lemma_lex_total(a.drop_first(), b.drop_first());
            if a.drop_first() == b.drop_first() {
                assert(a =~= seq![a[0]] + a.drop_first());
                assert(b =~= seq![b[0]] + b.drop_first());
            }
        } else {
            crate::text::lemma_lt_total(a[0], b[0]);
        }
    } else if a.len() == 0 && b.len() == 0 {
        assert(a =~= b);
    }
}

fn lex_lt_exec(a: &Vec<String>, b: &Vec<String>) -> (r: bool)
    ensures
        r == lex_lt(strs(a@), strs(b@)),
{
    let mut i: usize = 0;
    proof {
        assert(strs(a@).skip(0) =~= strs(a@));
        assert(strs(b@).skip(0) =~= strs(b@));
    }
    while i < a.len() && i < b.len()
        invariant
            i <= a@.len(),
            i <= b@.len(),
            lex_lt(strs(a@), strs(b@)) == lex_lt(strs(a@).skip(i as int), strs(b@).skip(i as int)),
        decreases a.len() - i,
    {
        proof {
            assert(strs(a@).skip(i as int)[0] == a@[i as int]@);
            assert(strs(b@).skip(i as int)[0] == b@[i as int]@);
            assert(strs(a@).skip(i as int).drop_first() =~= strs(a@).skip(i + 1));
            assert(strs(b@).skip(i as int).drop_first() =~= strs(b@).skip(i + 1));
        }
        if !str_eq(a[i].as_str(), b[i].as_str()) {
            return str_lt(a[i].as_str(), b[i].as_str());
        }
        i = i + 1;
    }
    proof {
        if i == a@.len() {
            assert(strs(a@).skip(i as int).len() == 0);
        } else {
            assert(strs(b@).skip(i as int).len() == 0);
        }
    }
    i < b.len()
}

/// Strictly increasing in lexicographic order (so no path occurs twice).
pub open spec fn lex_sorted(s: Seq<Seq<Seq<char>>>) -> bool {
    forall|i: int, j: int| 0 <= i < j < s.len() ==> lex_lt(#[trigger] s[i], #[trigger] s[j])
}

pub open spec fn path_views(s: Seq<Vec<String>>) -> Seq<Seq<Seq<char>>> {
    s.map_values(|p: Vec<String>| strs(p@))
}

/// Inserts `p` into the sorted, repetition-free list `out`, unless it is there.
pub fn insert_path(out: &mut Vec<Vec<String>>, p: Vec<String>)
    requires
        lex_sorted(path_views(old(out)@)),
    ensures
        lex_sorted(path_views(final(out)@)),
        forall|x: Seq<Seq<char>>| #[trigger] path_views(final(out)@).contains(x) <==> (path_views(old(out)@).contains(x) || x == strs(p@)),
{
    let ghost o0 = path_views(out@);
    let ghost pv = strs(p@);
    let mut i: usize = 0;
    while i < out.len()
        invariant
            i <= out@.len(),
            path_views(out@) == o0,
            lex_sorted(o0),
            pv == strs(p@),
            forall|j: int| 0 <= j < i ==> lex_lt(#[trigger] o0[j], pv),
        ensures
            i < o0.len() ==> !lex_lt(o0[i as int], pv),
        decreases out.len() - i,
    {
        let less = lex_lt_exec(&out[i], &p);
        proof {
            assert(path_views(out@)[i as int] == strs(out@[i as int]@));
        }
        if !less {
            break;
        }
        i = i + 1;
    }
    proof {
        if i < out@.len() {
            assert(path_views(out@)[i as int] == strs(out@[i as int]@));
        }
    }
    if i < out.len() && !lex_lt_exec(&p, &out[i]) {
        proof {
            lemma_lex_total(pv, o0[i as int]);
            assert(o0[i as int] == pv);
            assert forall|x: Seq<Seq<char>>| #[trigger] path_views(out@).contains(x) <==> (o0.contains(x) || x == pv) by {
                if x == pv {
                    assert(o0[i as int] == x);
                }
            };
        }
        return;
    }
    proof {
        if i < o0.len() {
            assert(lex_lt(pv, o0[i as int]));
        }
    }
    out.insert(i, p);
    proof {
        let n = path_views(out@);
        assert(n =~= o0.insert(i as int, pv));
        assert forall|a: int, b: int| 0 <= a < b < n.len() implies lex_lt(#[trigger] n[a], #[trigger] n[b]) by {
            if b < i {
            } else if a < i && b == i {
            } else if a < i && b > i {
                assert(lex_lt(o0[a], pv));
                assert(lex_lt(pv, o0[i as int]) || b - 1 == i);
                if b - 1 > i {
                    lemma_lex_transitive(pv, o0[i as int], o0[b - 1]);
                }
                lemma_lex_transitive(o0[a], pv, o0[b - 1]);
            } else if a == i {
                if b - 1 > i {
                    lemma_lex_transitive(pv, o0[i as int], o0[b - 1]);
                }
            } else {
                assert(lex_lt(o0[a - 1], o0[b - 1]));
            }
        };
        assert forall|x: Seq<Seq<char>>| #[trigger] n.contains(x) <==> (o0.contains(x) || x == pv) by {
            if n.contains(x) {
                let k = choose|k: int| 0 <= k < n.len() && n[k] == x;
                if k < i {
                    assert(o0[k] == x);
                } else if k > i {
                    assert(o0[k - 1] == x);
                }
            }
            if o0.contains(x) {
                let k = choose|k: int| 0 <= k < o0.len() && o0[k] == x;
                if k < i {
                    assert(n[k] == x);
                } else {
                    assert(n[k + 1] == x);
                }
            }
            if x == pv {
                assert(n[i as int] == x);
            }
        };
    }
}

// ---------------------------------------------------------------------------
// Walks and shortest walks
// ---------------------------------------------------------------------------

/// The label of the node a walk (edge indices) from `start` ends at.
pub open spec fn end_label(edges: Seq<GraphEdge>, start: GraphNode, w: Seq<usize>) -> Seq<char> {
    if w.len() == 0 {
        node_label(start)
    } else {
        node_label(edges[w.last() as int].to)
    }
}

/// `w` follows edges of `edges` from `start`, each leaving the node the one before
/// it entered.
pub open spec fn is_walk(edges: Seq<GraphEdge>, start: GraphNode, w: Seq<usize>) -> bool
    decreases w.len(),
{
    if w.len() == 0 {
        true
    } else {
        &&& is_walk(edges, start, w.drop_last())
        &&& w.last() < edges.len()
        &&& node_label(edges[w.last() as int].from) == end_label(edges, start, w.drop_last())
    }
}

/// No walk to the same node is shorter.
pub open spec fn is_shortest(edges: Seq<GraphEdge>, start: GraphNode, w: Seq<usize>) -> bool {
    &&& is_walk(edges, start, w)
    &&& forall|w2: Seq<usize>| #[trigger] is_walk(edges, start, w2) && end_label(edges, start, w2) == end_label(edges, start, w)
        ==> w.len() <= w2.len()
}

/// Some walk of at most `k` edges reaches the node labelled `x`.
pub open spec fn within(edges: Seq<GraphEdge>, start: GraphNode, x: Seq<char>, k: nat) -> bool {
    exists|w: Seq<usize>| #[trigger] is_walk(edges, start, w) && w.len() <= k && end_label(edges, start, w) == x
}

/// Paths end at constraints, obligations and evidence.
pub open spec fn target(n: GraphNode) -> bool {
    n is Constraint || n is ProofObligation || n is Evidence
}

pub open spec fn walk_labels(edges: Seq<GraphEdge>, w: Seq<usize>) -> Seq<Seq<char>> {
    w.map_values(|j: usize| edge_label(edges[j as int]))
}

/// `p` is the labels of a shortest walk from `start` to a target node.
pub open spec fn reported(edges: Seq<GraphEdge>, start: GraphNode, p: Seq<Seq<char>>) -> bool {
    exists|w: Seq<usize>| #[trigger] is_shortest(edges, start, w) && w.len() >= 1 && target(edges[w.last() as int].to)
        && walk_labels(edges, w) == p
}

proof fn lemma_extend(edges: Seq<GraphEdge>, start: GraphNode, w: Seq<usize>, j: usize)
    requires
        is_walk(edges, start, w),
        j < edges.len(),
        node_label(edges[j as int].from) == end_label(edges, start, w),
    ensures
        is_walk(edges, start, w.push(j)),
        end_label(edges, start, w.push(j)) == node_label(edges[j as int].to),
{
    assert(w.push(j).drop_last() =~= w);
}

proof fn lemma_prefix_of_shortest(edges: Seq<GraphEdge>, start: GraphNode, w: Seq<usize>)
    requires
        is_shortest(edges, start, w),
        w.len() >= 1,
    ensures
        is_shortest(edges, start, w.drop_last()),
{
    let p = w.drop_last();
    assert forall|w2: Seq<usize>| #[trigger] is_walk(edges, start, w2) && end_label(edges, start, w2) == end_label(edges, start, p)
        implies p.len() <= w2.len() by {
        if w2.len() < p.len() {
            lemma_extend(edges, start, w2, w.last());
            assert(end_label(edges, start, w2.push(w.last())) == end_label(edges, start, w));
        }
    };
}

proof fn lemma_take_of_shortest(edges: Seq<GraphEdge>, start: GraphNode, w: Seq<usize>, n: int)
    requires
        is_shortest(edges, start, w),
        0 <= n <= w.len(),
    ensures
        is_shortest(edges, start, w.take(n)),
    decreases w.len() - n,
{
    if n == w.len() {
        assert(w.take(n) =~= w);
    } else {
        lemma_take_of_shortest(edges, start, w, n + 1);
        lemma_prefix_of_shortest(edges, start, w.take(n + 1));
        assert(w.take(n + 1).drop_last() =~= w.take(n));
    }
}

proof fn lemma_shortest_exists(edges: Seq<GraphEdge>, start: GraphNode, w: Seq<usize>)
    requires
        is_walk(edges, start, w),
    ensures
        exists|m: Seq<usize>| #[trigger] is_shortest(edges, start, m) && end_label(edges, start, m) == end_label(edges, start, w)
            && m.len() <= w.len(),
    decreases w.len(),
{
    if !is_shortest(edges, start, w) {
        let w2 = choose|w2: Seq<usize>| #[trigger] is_walk(edges, start, w2) && end_label(edges, start, w2) == end_label(edges, start, w)
            && !(w.len() <= w2.len());
        lemma_shortest_exists(edges, start, w2);
    }
}

// ---------------------------------------------------------------------------
// Breadth-first enumeration of shortest walks
// ---------------------------------------------------------------------------

/// The number of edges among the first `n` whose target is not yet reached.
pub open spec fn unreached_count(to: Seq<Seq<char>>, reached: Seq<String>, n: int) -> nat
    decreases n,
{
    if n <= 0 {
        0
    } else {
        unreached_count(to, reached, n - 1) + if crate::keyed::set_has(reached, to[n - 1]) { 0nat } else { 1nat }
    }
}

pub(crate) proof fn lemma_unreached_shrinks(to: Seq<Seq<char>>, r1: Seq<String>, r2: Seq<String>, n: int, j: int)
    requires
        forall|x: Seq<char>| crate::keyed::set_has(r1, x) ==> crate::keyed::set_has(r2, x),
        0 <= n,
    ensures
        unreached_count(to, r2, n) <= unreached_count(to, r1, n),
        0 <= j < n && !crate::keyed::set_has(r1, to[j]) && crate::keyed::set_has(r2, to[j]) ==> unreached_count(to, r2, n) < unreached_count(to, r1, n),
    decreases n,
{
    if n > 0 {
        lemma_unreached_shrinks(to, r1, r2, n - 1, j);
    }
}

pub open spec fn walk_views(s: Seq<Vec<usize>>) -> Seq<Seq<usize>> {
    s.map_values(|v: Vec<usize>| v@)
}

/// The labels precomputed per edge.
pub open spec fn labels_of(edges: Seq<GraphEdge>, from: Seq<String>, to: Seq<String>, names: Seq<String>) -> bool {
    &&& from.len() == edges.len()
    &&& to.len() == edges.len()
    &&& names.len() == edges.len()
    &&& forall|j: int| 0 <= j < edges.len() ==> (#[trigger] from[j])@ == node_label(edges[j].from) && to[j]@ == node_label(edges[j].to)
        && names[j]@ == edge_label(edges[j])
}

/// The walks of `level` are exactly the shortest walks of `k` edges (with repeats).
pub open spec fn level_of(edges: Seq<GraphEdge>, start: GraphNode, level: Seq<Seq<usize>>, k: nat) -> bool {
    &&& forall|i: int| 0 <= i < level.len() ==> is_shortest(edges, start, #[trigger] level[i]) && level[i].len() == k
    &&& forall|w: Seq<usize>| #[trigger] is_shortest(edges, start, w) && w.len() == k ==> level.contains(w)
}

fn end_label_exec(w: &Vec<usize>, start_label: &String, to: &Vec<String>, Ghost(edges): Ghost<Seq<GraphEdge>>, Ghost(start): Ghost<GraphNode>) -> (r: String)
    requires
        start_label@ == node_label(start),
        to@.len() == edges.len(),
        forall|j: int| 0 <= j < edges.len() ==> (#[trigger] to@[j])@ == node_label(edges[j].to),
        w@.len() > 0 ==> w@.last() < edges.len(),
    ensures
        r@ == end_label(edges, start, w@),
{
    if w.len() == 0 {
        own(start_label.as_str())
    } else {
        own(to[w[w.len() - 1]].as_str())
    }
}

/// The shortest walks of `k + 1` edges, from those of `k` edges and the nodes
/// reached within `k` edges.
fn next_level(
    level: &Vec<Vec<usize>>,
    reached: &Vec<String>,
    start_label: &String,
    from: &Vec<String>,
    to: &Vec<String>,
    Ghost(edges): Ghost<Seq<GraphEdge>>,
    Ghost(start): Ghost<GraphNode>,
    Ghost(k): Ghost<nat>,
) -> (next: Vec<Vec<usize>>)
    requires
        start_label@ == node_label(start),
        from@.len() == edges.len(),
        to@.len() == edges.len(),
        forall|j: int| 0 <= j < edges.len() ==> (#[trigger] from@[j])@ == node_label(edges[j].from),
        forall|j: int| 0 <= j < edges.len() ==> (#[trigger] to@[j])@ == node_label(edges[j].to),
        level_of(edges, start, walk_views(level@), k),
        forall|x: Seq<char>| crate::keyed::set_has(reached@, x) <==> within(edges, start, x, k),
    ensures
        level_of(edges, start, walk_views(next@), k + 1),
        forall|i: int| 0 <= i < next@.len() ==> !crate::keyed::set_has(reached@, end_label(edges, start, (#[trigger] next@[i])@)),
        forall|i: int| 0 <= i < next@.len() ==> (#[trigger] next@[i])@.len() >= 1 && next@[i]@.last() < edges.len(),
{
    let ghost lv = walk_views(level@);
    let mut next: Vec<Vec<usize>> = Vec::new();
    let mut i: usize = 0;
    while i < level.len()
        invariant
            i <= level@.len(),
            lv == walk_views(level@),
            start_label@ == node_label(start),
            from@.len() == edges.len(),
            to@.len() == edges.len(),
            forall|j: int| 0 <= j < edges.len() ==> (#[trigger] from@[j])@ == node_label(edges[j].from),
            forall|j: int| 0 <= j < edges.len() ==> (#[trigger] to@[j])@ == node_label(edges[j].to),
            level_of(edges, start, lv, k),
            forall|x: Seq<char>| crate::keyed::set_has(reached@, x) <==> within(edges, start, x, k),
            forall|q: int| 0 <= q < next@.len() ==> is_shortest(edges, start, #[trigger] next@[q]@) && next@[q]@.len() == k + 1
                && !crate::keyed::set_has(reached@, end_label(edges, start, next@[q]@)) && next@[q]@.last() < edges.len(),
            forall|a: int, j: usize| 0 <= a < i && j < edges.len() && node_label(edges[j as int].from) == end_label(edges, start, lv[a])
                && !crate::keyed::set_has(reached@, node_label(edges[j as int].to)) ==> #[trigger] walk_views(next@).contains(lv[a].push(j)),
        decreases level.len() - i,
    {
        let w = &level[i];
        proof {
            assert(lv[i as int] == w@);
            assert(is_shortest(edges, start, w@));
            assert(w@.len() > 0 ==> w@.last() < edges.len()) by {
                if w@.len() > 0 {
                    assert(w@.drop_last().push(w@.last()) =~= w@);
                }
            };
        }
        let here = end_label_exec(w, start_label, to, Ghost(edges), Ghost(start));
        let ghost n0 = walk_views(next@);
        let mut j: usize = 0;
        while j < from.len()
            invariant
                j <= edges.len(),
                i < level@.len(),
                lv == walk_views(level@),
                w@ == lv[i as int],
                here@ == end_label(edges, start, w@),
                from@.len() == edges.len(),
                to@.len() == edges.len(),
                forall|j2: int| 0 <= j2 < edges.len() ==> (#[trigger] from@[j2])@ == node_label(edges[j2].from),
                forall|j2: int| 0 <= j2 < edges.len() ==> (#[trigger] to@[j2])@ == node_label(edges[j2].to),
                level_of(edges, start, lv, k),
                forall|x: Seq<char>| crate::keyed::set_has(reached@, x) <==> within(edges, start, x, k),
                walk_views(next@).len() >= n0.len(),
                forall|q: int| 0 <= q < n0.len() ==> walk_views(next@)[q] == n0[q],
                forall|q: int| 0 <= q < next@.len() ==> is_shortest(edges, start, #[trigger] next@[q]@) && next@[q]@.len() == k + 1
                    && !crate::keyed::set_has(reached@, end_label(edges, start, next@[q]@)) && next@[q]@.last() < edges.len(),
                forall|j2: usize| j2 < j && node_label(edges[j2 as int].from) == end_label(edges, start, lv[i as int])
                    && !crate::keyed::set_has(reached@, node_label(edges[j2 as int].to)) ==> #[trigger] walk_views(next@).contains(lv[i as int].push(j2)),
            decreases edges.len() - j,
        {
            if str_eq(from[j].as_str(), here.as_str()) && !crate::keyed::contains_str(reached, to[j].as_str()) {
                let mut extended: Vec<usize> = Vec::new();
                let mut q: usize = 0;
                while q < w.len()
                    invariant
                        q <= w@.len(),
                        extended@ == w@.take(q as int),
                    decreases w.len() - q,
                {
                    extended.push(w[q]);
                    proof {
                        assert(w@.take(q + 1) =~= w@.take(q as int).push(w@[q as int]));
                    }
                    q = q + 1;
                }
                extended.push(j);
                let ghost nb = next@;
                proof {
                    assert(w@.take(w@.len() as int) =~= w@);
                    assert(extended@ == w@.push(j));
                    lemma_extend(edges, start, w@, j);
                    assert forall|w2: Seq<usize>| #[trigger] is_walk(edges, start, w2) && end_label(edges, start, w2) == end_label(edges, start, extended@)
                        implies extended@.len() <= w2.len() by {
                        if w2.len() < extended@.len() {
                            assert(within(edges, start, end_label(edges, start, extended@), k));
                            assert(crate::keyed::set_has(reached@, to@[j as int]@));
                        }
                    };
                    assert(is_shortest(edges, start, extended@));
                }
                next.push(extended);
                proof {
                    assert(walk_views(next@) =~= walk_views(nb).push(w@.push(j)));
                    assert(walk_views(next@)[walk_views(next@).len() - 1] == w@.push(j));
                    assert forall|j2: usize| j2 < j + 1 && node_label(edges[j2 as int].from) == end_label(edges, start, lv[i as int])
                        && !crate::keyed::set_has(reached@, node_label(edges[j2 as int].to)) implies #[trigger] walk_views(next@).contains(lv[i as int].push(j2)) by {
                        if j2 < j {
                            assert(walk_views(nb).contains(lv[i as int].push(j2)));
                            let t = choose|t: int| 0 <= t < walk_views(nb).len() && walk_views(nb)[t] == lv[i as int].push(j2);
                            assert(walk_views(next@)[t] == lv[i as int].push(j2));
                        } else {
                            assert(walk_views(next@)[walk_views(next@).len() - 1] == lv[i as int].push(j2));
                        }
                    };
                    assert forall|q2: int| 0 <= q2 < n0.len() implies walk_views(next@)[q2] == n0[q2] by {
                        assert(walk_views(nb)[q2] == n0[q2]);
                    };
                }
            } else {
                proof {
                    assert forall|j2: usize| j2 < j + 1 && node_label(edges[j2 as int].from) == end_label(edges, start, lv[i as int])
                        && !crate::keyed::set_has(reached@, node_label(edges[j2 as int].to)) implies #[trigger] walk_views(next@).contains(lv[i as int].push(j2)) by {
                        if j2 == j {
                            assert(from@[j as int]@ == node_label(edges[j as int].from));
                        }
                    };
                }
            }
            j = j + 1;
        }
        proof {
            assert forall|a: int, j2: usize| 0 <= a < i + 1 && j2 < edges.len() && node_label(edges[j2 as int].from) == end_label(edges, start, lv[a])
                && !crate::keyed::set_has(reached@, node_label(edges[j2 as int].to)) implies #[trigger] walk_views(next@).contains(lv[a].push(j2)) by {
                if a < i {
                    assert(n0.contains(lv[a].push(j2)));
                    let t = choose|t: int| 0 <= t < n0.len() && n0[t] == lv[a].push(j2);
                    assert(walk_views(next@)[t] == lv[a].push(j2));
                }
            };
        }
        i = i + 1;
    }
    proof {
        assert forall|w: Seq<usize>| #[trigger] is_shortest(edges, start, w) && w.len() == k + 1 implies walk_views(next@).contains(w) by {
            let p = w.drop_last();
            lemma_prefix_of_shortest(edges, start, w);
            assert(lv.contains(p));
            let a = choose|a: int| 0 <= a < lv.len() && lv[a] == p;
            assert(p.push(w.last()) =~= w);
            if crate::keyed::set_has(reached@, node_label(edges[w.last() as int].to)) {
                let w2 = choose|w2: Seq<usize>| #[trigger] is_walk(edges, start, w2) && w2.len() <= k
                    && end_label(edges, start, w2) == node_label(edges[w.last() as int].to);
                assert(end_label(edges, start, w) == node_label(edges[w.last() as int].to));
            }
        };
        assert forall|q: int| 0 <= q < walk_views(next@).len() implies is_shortest(edges, start, #[trigger] walk_views(next@)[q])
            && walk_views(next@)[q].len() == k + 1 by {
            assert(walk_views(next@)[q] == next@[q]@);
        };
    }
    next
}

/// The labels of a walk's edges.
fn walk_labels_exec(w: &Vec<usize>, names: &Vec<String>, Ghost(edges): Ghost<Seq<GraphEdge>>) -> (r: Vec<String>)
    requires
        names@.len() == edges.len(),
        forall|j: int| 0 <= j < edges.len() ==> (#[trigger] names@[j])@ == edge_label(edges[j]),
        forall|q: int| 0 <= q < w@.len() ==> w@[q] < edges.len(),
    ensures
        strs(r@) == walk_labels(edges, w@),
{
    let mut r: Vec<String> = Vec::new();
    let mut q: usize = 0;
    while q < w.len()
        invariant
            q <= w@.len(),
            names@.len() == edges.len(),
            forall|j: int| 0 <= j < edges.len() ==> (#[trigger] names@[j])@ == edge_label(edges[j]),
            forall|q2: int| 0 <= q2 < w@.len() ==> w@[q2] < edges.len(),
            strs(r@) == walk_labels(edges, w@.take(q as int)),
        decreases w.len() - q,
    {
        let ghost r0 = strs(r@);
        r.push(own(names[w[q]].as_str()));
        proof {
            assert(strs(r@) =~= r0.push(edge_label(edges[w@[q as int] as int])));
            assert(walk_labels(edges, w@.take(q + 1)) =~= walk_labels(edges, w@.take(q as int)).push(edge_label(edges[w@[q as int] as int])));
        }
        q = q + 1;
    }
    proof {
        assert(w@.take(w@.len() as int) =~= w@);
    }
    r
}

proof fn lemma_walk_indices(edges: Seq<GraphEdge>, start: GraphNode, w: Seq<usize>)
    requires
        is_walk(edges, start, w),
    ensures
        forall|q: int| 0 <= q < w.len() ==> w[q] < edges.len(),
    decreases w.len(),
{
    if w.len() > 0 {
        lemma_walk_indices(edges, start, w.drop_last());
        assert forall|q: int| 0 <= q < w.len() implies w[q] < edges.len() by {
            if q < w.len() - 1 {
                assert(w.drop_last()[q] == w[q]);
            }
        };
    }
}

/// `reached` holds the labels of `r0` and the ends of the first `i` walks of `next`.
pub open spec fn reached_upto(edges: Seq<GraphEdge>, start: GraphNode, reached: Seq<String>, r0: Seq<String>, next: Seq<Seq<usize>>, i: int) -> bool {
    forall|x: Seq<char>| crate::keyed::set_has(reached, x) <==> (crate::keyed::set_has(r0, x)
        || exists|a: int| 0 <= a < i && #[trigger] end_label(edges, start, next[a]) == x)
}

/// The paths found so far: labels of shortest walks of 1 to `k` edges to targets.
pub open spec fn found_upto(edges: Seq<GraphEdge>, start: GraphNode, p: Seq<Seq<char>>, k: nat) -> bool {
    exists|w: Seq<usize>| #[trigger] is_shortest(edges, start, w) && 1 <= w.len() <= k && target(edges[w.last() as int].to)
        && walk_labels(edges, w) == p
}

/// Every shortest walk from `start` to a constraint, obligation or evidence node,
/// as the labels of its edges, sorted and each once.
pub fn paths_from_edges(edges: &Vec<GraphEdge>, start: &GraphNode) -> (r: Vec<Vec<String>>)
    ensures
        lex_sorted(path_views(r@)),
        forall|p: Seq<Seq<char>>| #[trigger] path_views(r@).contains(p) <==> reported(edges@, *start, p),
{
    let ghost es = edges@;
    let mut from: Vec<String> = Vec::new();
    let mut to: Vec<String> = Vec::new();
    let mut names: Vec<String> = Vec::new();
    let mut j: usize = 0;
    while j < edges.len()
        invariant
            j <= es.len(),
            es == edges@,
            from@.len() == j,
            to@.len() == j,
            names@.len() == j,
            forall|q: int| 0 <= q < j ==> (#[trigger] from@[q])@ == node_label(es[q].from),
            forall|q: int| 0 <= q < j ==> (#[trigger] to@[q])@ == node_label(es[q].to),
            forall|q: int| 0 <= q < j ==> (#[trigger] names@[q])@ == edge_label(es[q]),
        decreases edges.len() - j,
    {
        from.push(node_label_exec(&edges[j].from));
        to.push(node_label_exec(&edges[j].to));
        names.push(edge_label_exec(&edges[j]));
        j = j + 1;
    }
    let ghost tv = to@.map_values(|x: String| x@);
    let start_label = node_label_exec(start);
    let mut reached: Vec<String> = Vec::new();
    reached.push(own(start_label.as_str()));
    let mut level: Vec<Vec<usize>> = Vec::new();
    level.push(Vec::new());
    let mut out: Vec<Vec<String>> = Vec::new();
    let ghost mut k: nat = 0;
    proof {
        let e: Seq<usize> = Seq::empty();
        assert(walk_views(level@) =~= seq![e]);
        assert forall|w: Seq<usize>| #[trigger] is_shortest(es, *start, w) && w.len() == 0 implies walk_views(level@).contains(w) by {
            assert(w =~= e);
            assert(walk_views(level@)[0] == w);
        };
        assert(is_walk(es, *start, e));
        assert(is_shortest(es, *start, e));
        assert forall|x: Seq<char>| crate::keyed::set_has(reached@, x) <==> within(es, *start, x, 0) by {
            if crate::keyed::set_has(reached@, x) {
                assert(reached@[0]@ == x);
                assert(end_label(es, *start, e) == x);
            }
            if within(es, *start, x, 0) {
                let w = choose|w: Seq<usize>| #[trigger] is_walk(es, *start, w) && w.len() <= 0 && end_label(es, *start, w) == x;
                assert(reached@[0]@ == x);
            }
        };
        assert forall|p: Seq<Seq<char>>| #[trigger] path_views(out@).contains(p) <==> found_upto(es, *start, p, 0) by {
            if path_views(out@).contains(p) {
                let t = choose|t: int| 0 <= t < path_views(out@).len() && path_views(out@)[t] == p;
            }
        };
    }
    loop
        invariant
            es == edges@,
            tv == to@.map_values(|x: String| x@),
            start_label@ == node_label(*start),
            from@.len() == es.len(),
            to@.len() == es.len(),
            names@.len() == es.len(),
            forall|q: int| 0 <= q < es.len() ==> (#[trigger] from@[q])@ == node_label(es[q].from),
            forall|q: int| 0 <= q < es.len() ==> (#[trigger] to@[q])@ == node_label(es[q].to),
            forall|q: int| 0 <= q < es.len() ==> (#[trigger] names@[q])@ == edge_label(es[q]),
            level_of(es, *start, walk_views(level@), k),
            forall|x: Seq<char>| crate::keyed::set_has(reached@, x) <==> within(es, *start, x, k),
            lex_sorted(path_views(out@)),
            forall|p: Seq<Seq<char>>| #[trigger] path_views(out@).contains(p) <==> found_upto(es, *start, p, k),
        ensures
            lex_sorted(path_views(out@)),
            forall|p: Seq<Seq<char>>| #[trigger] path_views(out@).contains(p) <==> found_upto(es, *start, p, k),
            forall|w: Seq<usize>| #[trigger] is_shortest(es, *start, w) ==> w.len() <= k,
        decreases unreached_count(tv, reached@, es.len() as int),
    {
        let next = next_level(&level, &reached, &start_label, &from, &to, Ghost(es), Ghost(*start), Ghost(k));
        if next.len() == 0 {
            proof {
                assert forall|w: Seq<usize>| #[trigger] is_shortest(es, *start, w) implies w.len() <= k by {
                    if w.len() > k {
                        lemma_take_of_shortest(es, *start, w, (k + 1) as int);
                        assert(walk_views(next@).contains(w.take((k + 1) as int)));
                    }
                };
            }
            break;
        }
        let ghost r0 = reached@;
        let ghost o0 = path_views(out@);
        let ghost nv = walk_views(next@);
        proof {
            assert forall|a: int| 0 <= a < next@.len() implies (#[trigger] next@[a])@.len() >= 1 && next@[a]@.last() < es.len()
                && is_walk(es, *start, next@[a]@) by {
                assert(nv[a] == next@[a]@);
            };
        }
        let mut i: usize = 0;
        while i < next.len()
            invariant
                i <= next@.len(),
                es == edges@,
                nv == walk_views(next@),
                to@.len() == es.len(),
                names@.len() == es.len(),
                forall|q: int| 0 <= q < es.len() ==> (#[trigger] to@[q])@ == node_label(es[q].to),
                forall|q: int| 0 <= q < es.len() ==> (#[trigger] names@[q])@ == edge_label(es[q]),
                forall|a: int| 0 <= a < next@.len() ==> (#[trigger] next@[a])@.len() >= 1 && next@[a]@.last() < es.len()
                    && is_walk(es, *start, next@[a]@),
                reached_upto(es, *start, reached@, r0, nv, i as int),
                lex_sorted(path_views(out@)),
                forall|p: Seq<Seq<char>>| #[trigger] path_views(out@).contains(p) <==> (o0.contains(p)
                    || exists|a: int| 0 <= a < i && target(es[next@[a]@.last() as int].to) && #[trigger] walk_labels(es, next@[a]@) == p),
            decreases next.len() - i,
        {
            let w = &next[i];
            let last = w[w.len() - 1];
            let ghost rb = reached@;
            let ghost ob = path_views(out@);
            if !crate::keyed::contains_str(&reached, to[last].as_str()) {
                reached.push(own(to[last].as_str()));
                proof {
                    assert forall|x: Seq<char>| crate::keyed::set_has(reached@, x) <==> (crate::keyed::set_has(rb, x) || x == to@[last as int]@) by {
                        if crate::keyed::set_has(reached@, x) {
                            let t = choose|t: int| 0 <= t < reached@.len() && #[trigger] reached@[t]@ == x;
                            if t < rb.len() {
                                assert(rb[t]@ == x);
                            }
                        }
                        if crate::keyed::set_has(rb, x) {
                            let t = choose|t: int| 0 <= t < rb.len() && #[trigger] rb[t]@ == x;
                            assert(reached@[t]@ == x);
                        }
                        if x == to@[last as int]@ {
                            assert(reached@[reached@.len() - 1]@ == x);
                        }
                    };
                }
            }
            proof {
                assert(end_label(es, *start, next@[i as int]@) == to@[last as int]@);
                assert forall|x: Seq<char>| crate::keyed::set_has(reached@, x) <==> (crate::keyed::set_has(rb, x) || x == to@[last as int]@) by {};
                assert(reached_upto(es, *start, reached@, r0, nv, i + 1)) by {
                assert forall|x: Seq<char>| crate::keyed::set_has(reached@, x) <==> (crate::keyed::set_has(r0, x)
                    || exists|a: int| 0 <= a < i + 1 && #[trigger] end_label(es, *start, nv[a]) == x) by {
                    assert(crate::keyed::set_has(rb, x) <==> (crate::keyed::set_has(r0, x)
                        || exists|a: int| 0 <= a < i && #[trigger] end_label(es, *start, nv[a]) == x));
                    assert(nv[i as int] == next@[i as int]@);
                    if exists|a: int| 0 <= a < i + 1 && #[trigger] end_label(es, *start, nv[a]) == x {
                        let a = choose|a: int| 0 <= a < i + 1 && #[trigger] end_label(es, *start, nv[a]) == x;
                        if a < i {
                            assert(exists|a2: int| 0 <= a2 < i && #[trigger] end_label(es, *start, nv[a2]) == x);
                        }
                    }
                };
                }
            }
            let to_node = &edges[last].to;
            let is_target = match to_node {
                GraphNode::Constraint(_) | GraphNode::ProofObligation(_) | GraphNode::Evidence(_) => true,
                _ => false,
            };
            if is_target {
                proof {
                    lemma_walk_indices(es, *start, w@);
                }
                let labels = walk_labels_exec(w, &names, Ghost(es));
                insert_path(&mut out, labels);
            }
            proof {
                assert forall|p: Seq<Seq<char>>| #[trigger] path_views(out@).contains(p) <==> (o0.contains(p)
                    || exists|a: int| 0 <= a < i + 1 && target(es[next@[a]@.last() as int].to) && #[trigger] walk_labels(es, next@[a]@) == p) by {
                    if exists|a: int| 0 <= a < i + 1 && target(es[next@[a]@.last() as int].to) && #[trigger] walk_labels(es, next@[a]@) == p {
                        let a = choose|a: int| 0 <= a < i + 1 && target(es[next@[a]@.last() as int].to) && #[trigger] walk_labels(es, next@[a]@) == p;
                        if a < i {
                            assert(ob.contains(p));
                        }
                    }
                    if ob.contains(p) {
                    }
                };
            }
            i = i + 1;
        }
        proof {
            let k1: nat = k + 1;
            assert forall|x: Seq<char>| crate::keyed::set_has(reached@, x) <==> within(es, *start, x, k1) by {
                if crate::keyed::set_has(reached@, x) {
                    if crate::keyed::set_has(r0, x) {
                        let w = choose|w: Seq<usize>| #[trigger] is_walk(es, *start, w) && w.len() <= k && end_label(es, *start, w) == x;
                    } else {
                        let a = choose|a: int| 0 <= a < nv.len() && #[trigger] end_label(es, *start, nv[a]) == x;
                        assert(nv[a] == next@[a]@);
                        assert(is_walk(es, *start, next@[a]@));
                        assert(next@[a]@.len() == k1);
                    }
                }
                if within(es, *start, x, k1) {
                    let w = choose|w: Seq<usize>| #[trigger] is_walk(es, *start, w) && w.len() <= k1 && end_label(es, *start, w) == x;
                    lemma_shortest_exists(es, *start, w);
                    let m = choose|m: Seq<usize>| #[trigger] is_shortest(es, *start, m) && end_label(es, *start, m) == end_label(es, *start, w)
                        && m.len() <= w.len();
                    if m.len() <= k {
                        assert(within(es, *start, x, k));
                    } else {
                        assert(nv.contains(m));
                        let a = choose|a: int| 0 <= a < nv.len() && nv[a] == m;
                        assert(next@[a]@ == m);
                        assert(end_label(es, *start, nv[a]) == x);
                    }
                }
            };
            assert forall|p: Seq<Seq<char>>| #[trigger] path_views(out@).contains(p) <==> found_upto(es, *start, p, k1) by {
                if path_views(out@).contains(p) {
                    if o0.contains(p) {
                        let w = choose|w: Seq<usize>| #[trigger] is_shortest(es, *start, w) && 1 <= w.len() <= k && target(es[w.last() as int].to)
                            && walk_labels(es, w) == p;
                    } else {
                        let a = choose|a: int| 0 <= a < next@.len() && target(es[next@[a]@.last() as int].to) && #[trigger] walk_labels(es, next@[a]@) == p;
                        assert(nv[a] == next@[a]@);
                        assert(is_shortest(es, *start, nv[a]));
                    }
                }
                if found_upto(es, *start, p, k1) {
                    let w = choose|w: Seq<usize>| #[trigger] is_shortest(es, *start, w) && 1 <= w.len() <= k1 && target(es[w.last() as int].to)
                        && walk_labels(es, w) == p;
                    if w.len() <= k {
                        assert(found_upto(es, *start, p, k));
                    } else {
                        assert(nv.contains(w));
                        let a = choose|a: int| 0 <= a < nv.len() && nv[a] == w;
                        assert(next@[a]@ == w);
                        assert(walk_labels(es, next@[a]@) == p);
                    }
                }
            };
            let j0 = next@[0]@.last();
            assert(nv[0] == next@[0]@);
            assert(!crate::keyed::set_has(r0, end_label(es, *start, next@[0]@)));
            assert(tv[j0 as int] == end_label(es, *start, next@[0]@));
            assert(crate::keyed::set_has(reached@, tv[j0 as int]));
            assert forall|x: Seq<char>| crate::keyed::set_has(r0, x) implies crate::keyed::set_has(reached@, x) by {};
            lemma_unreached_shrinks(tv, r0, reached@, es.len() as int, j0 as int);
        }
        level = next;
        proof {
            k = k + 1;
        }
    }
    proof {
        assert forall|p: Seq<Seq<char>>| #[trigger] path_views(out@).contains(p) <==> reported(es, *start, p) by {
            if reported(es, *start, p) {
                let w = choose|w: Seq<usize>| #[trigger] is_shortest(es, *start, w) && w.len() >= 1 && target(es[w.last() as int].to)
                    && walk_labels(es, w) == p;
                assert(found_upto(es, *start, p, k));
            }
        };
    }
    out
}

// ---------------------------------------------------------------------------
// Reachability
// ---------------------------------------------------------------------------

/// Some walk from `start` ends at the node labelled `x` (the empty walk at `start`).
pub open spec fn reaches(edges: Seq<GraphEdge>, start: GraphNode, x: Seq<char>) -> bool {
    exists|w: Seq<usize>| #[trigger] is_walk(edges, start, w) && end_label(edges, start, w) == x
}

proof fn lemma_set_has_push(s: Seq<String>, v: String, x: Seq<char>)
    ensures
        crate::keyed::set_has(s.push(v), x) <==> (crate::keyed::set_has(s, x) || v@ == x),
{
    if crate::keyed::set_has(s, x) {
        let i = choose|i: int| 0 <= i < s.len() && #[trigger] s[i]@ == x;
        assert(s.push(v)[i]@ == x);
    }
    if v@ == x {
        assert(s.push(v)[s.len() as int]@ == x);
    }
    if crate::keyed::set_has(s.push(v), x) {
        let i = choose|i: int| 0 <= i < s.push(v).len() && #[trigger] s.push(v)[i]@ == x;
        if i < s.len() {
            assert(s[i]@ == x);
        }
    }
}

/// A set of labels that holds `start` and is closed under the edges holds the end
/// of every walk.
proof fn lemma_closed_holds_walks(edges: Seq<GraphEdge>, start: GraphNode, reached: Seq<String>, w: Seq<usize>)
    requires
        crate::keyed::set_has(reached, node_label(start)),
        forall|j: int| 0 <= j < edges.len() && crate::keyed::set_has(reached, node_label(#[trigger] edges[j].from))
            ==> crate::keyed::set_has(reached, node_label(edges[j].to)),
        is_walk(edges, start, w),
    ensures
        crate::keyed::set_has(reached, end_label(edges, start, w)),
    decreases w.len(),
{
    if w.len() > 0 {
        lemma_closed_holds_walks(edges, start, reached, w.drop_last());
        let j = w.last() as int;
        assert(crate::keyed::set_has(reached, node_label(edges[j].from)));
    }
}

/// The labels of every node reachable from `start`, each once.
pub fn reachable_labels(edges: &Vec<GraphEdge>, start: &GraphNode) -> (r: Vec<String>)
    ensures
        forall|x: Seq<char>| #[trigger] crate::keyed::set_has(r@, x) <==> reaches(edges@, *start, x),
{
    let ghost es = edges@;
    let n = edges.len();
    let mut from: Vec<String> = Vec::new();
    let mut to: Vec<String> = Vec::new();
    let mut j: usize = 0;
    while j < n
        invariant
            j <= n,
            n == es.len(),
            es == edges@,
            from@.len() == j,
            to@.len() == j,
            forall|q: int| 0 <= q < j ==> (#[trigger] from@[q])@ == node_label(es[q].from),
            forall|q: int| 0 <= q < j ==> (#[trigger] to@[q])@ == node_label(es[q].to),
        decreases n - j,
    {
        from.push(node_label_exec(&edges[j].from));
        to.push(node_label_exec(&edges[j].to));
        j = j + 1;
    }
    let ghost tv = to@.map_values(|x: String| x@);
    let start_label = node_label_exec(start);
    let mut reached: Vec<String> = Vec::new();
    reached.push(start_label);
    proof {
        assert(reached@[0]@ == node_label(*start));
        assert(is_walk(es, *start, Seq::<usize>::empty()));
        assert(end_label(es, *start, Seq::<usize>::empty()) == node_label(*start));
        assert forall|x: Seq<char>| #[trigger] crate::keyed::set_has(reached@, x) implies reaches(es, *start, x) by {
            let i = choose|i: int| 0 <= i < reached@.len() && #[trigger] reached@[i]@ == x;
            assert(is_walk(es, *start, Seq::<usize>::empty()));
        };
    }
    let mut changed = true;
    while changed
        invariant
            n == es.len(),
            es == edges@,
            from@.len() == n,
            to@.len() == n,
            tv == to@.map_values(|x: String| x@),
            forall|q: int| 0 <= q < n ==> (#[trigger] from@[q])@ == node_label(es[q].from),
            forall|q: int| 0 <= q < n ==> (#[trigger] to@[q])@ == node_label(es[q].to),
            crate::keyed::set_has(reached@, node_label(*start)),
            forall|x: Seq<char>| #[trigger] crate::keyed::set_has(reached@, x) ==> reaches(es, *start, x),
            !changed ==> forall|q: int| 0 <= q < n && crate::keyed::set_has(reached@, node_label(#[trigger] es[q].from))
                ==> crate::keyed::set_has(reached@, node_label(es[q].to)),
        decreases 2 * unreached_count(tv, reached@, n as int) + if changed { 1int } else { 0int },
    {
        let ghost r0 = reached@;
        let ghost u0 = unreached_count(tv, r0, n as int);
        changed = false;
        let mut q: usize = 0;
        while q < n
            invariant
                q <= n,
                n == es.len(),
                es == edges@,
                from@.len() == n,
                to@.len() == n,
                tv == to@.map_values(|x: String| x@),
                forall|p: int| 0 <= p < n ==> (#[trigger] from@[p])@ == node_label(es[p].from),
                forall|p: int| 0 <= p < n ==> (#[trigger] to@[p])@ == node_label(es[p].to),
                crate::keyed::set_has(reached@, node_label(*start)),
                forall|x: Seq<char>| #[trigger] crate::keyed::set_has(reached@, x) ==> reaches(es, *start, x),
                forall|x: Seq<char>| #[trigger] crate::keyed::set_has(r0, x) ==> crate::keyed::set_has(reached@, x),
                !changed ==> reached@ == r0,
                changed ==> exists|j0: int| 0 <= j0 < n && !crate::keyed::set_has(r0, #[trigger] tv[j0]) && crate::keyed::set_has(reached@, tv[j0]),
                !changed ==> forall|p: int| 0 <= p < q && crate::keyed::set_has(reached@, node_label(#[trigger] es[p].from))
                    ==> crate::keyed::set_has(reached@, node_label(es[p].to)),
            decreases n - q,
        {
            let known_from = crate::keyed::contains_str(&reached, from[q].as_str());
            let known_to = crate::keyed::contains_str(&reached, to[q].as_str());
            if known_from && !known_to {
                let ghost rb = reached@;
                let t = to[q].clone();
                reached.push(t);
                proof {
                    assert forall|x: Seq<char>| crate::keyed::set_has(reached@, x) <==> (crate::keyed::set_has(rb, x) || t@ == x) by {
                        lemma_set_has_push(rb, t, x);
                    };
                    let w = choose|w: Seq<usize>| #[trigger] is_walk(es, *start, w) && end_label(es, *start, w) == node_label(es[q as int].from);
                    let w2 = w.push(q as usize);
                    assert(w2.drop_last() =~= w);
                    assert(is_walk(es, *start, w2));
                    assert(end_label(es, *start, w2) == node_label(es[q as int].to));
                    assert forall|x: Seq<char>| #[trigger] crate::keyed::set_has(reached@, x) implies reaches(es, *start, x) by {
                        lemma_set_has_push(rb, t, x);
                        if x == t@ {
                            assert(to@[q as int]@ == node_label(es[q as int].to));
                            assert(end_label(es, *start, w2) == x);
                            assert(is_walk(es, *start, w2));
                        } else {
                            assert(crate::keyed::set_has(rb, x));
                        }
                    };
                    assert(tv[q as int] == t@);
                    if !crate::keyed::set_has(r0, tv[q as int]) {
                    } else {
                        assert(crate::keyed::set_has(rb, t@));
                    }
                }
                changed = true;
            }
            q = q + 1;
        }
        proof {
            if changed {
                let j0 = choose|j0: int| 0 <= j0 < n && !crate::keyed::set_has(r0, #[trigger] tv[j0]) && crate::keyed::set_has(reached@, tv[j0]);
                lemma_unreached_shrinks(tv, r0, reached@, n as int, j0);
            }
        }
    }
    proof {
        assert forall|x: Seq<char>| #[trigger] reaches(es, *start, x) implies crate::keyed::set_has(reached@, x) by {
            let w = choose|w: Seq<usize>| #[trigger] is_walk(es, *start, w) && end_label(es, *start, w) == x;
            lemma_closed_holds_walks(es, *start, reached@, w);
        };
    }
    reached
}

} // verus!
