//! The JSON text of a graph edge determines the edge's parts: two edges with the
//! same text have the same kinds, node variants and node identifiers.
use vstd::prelude::*;
use crate::project::{GraphEdge, GraphNode, LinkKind, edge_json, edge_json_parts, hex_digit, json_escape, json_escape_char, json_string, link_name,
    node_id, node_json_parts, node_variant};

verus! {

proof fn lemma_escape_first(s: Seq<char>)
    requires
        s.len() > 0,
    ensures
        json_escape(s) == json_escape_char(s[0]) + json_escape(s.drop_first()),
    decreases s.len(),
{
    if s.len() == 1 {
        assert(s.drop_last() =~= Seq::<char>::empty());
        assert(s.drop_first() =~= Seq::<char>::empty());
        assert(json_escape(Seq::<char>::empty()) == Seq::<char>::empty());
        assert(json_escape(s) =~= json_escape_char(s[0]));
    } else {
        lemma_escape_first(s.drop_last());
        assert(s.drop_last().drop_first() =~= s.drop_first().drop_last());
        assert(s.drop_first().last() == s.last());
        assert(s.drop_last()[0] == s[0]);
        assert(json_escape(s.drop_first()) == json_escape(s.drop_first().drop_last()) + json_escape_char(s.drop_first().last()));
        assert(json_escape(s) =~= json_escape_char(s[0]) + json_escape(s.drop_first()));
    }
}

proof fn lemma_escape_char_head(c: char)
    ensures
        json_escape_char(c).len() >= 1,
        json_escape_char(c)[0] != '"',
        json_escape_char(c)[0] == '\\' || json_escape_char(c) == seq![c],
        json_escape_char(c) == seq![c] ==> c != '\\' && c != '"',
{
}

proof fn lemma_hex_digit_injective(a: nat, b: nat)
    requires
        a < 16,
        b < 16,
        hex_digit(a) == hex_digit(b),
    ensures
        a == b,
{
}

proof fn lemma_escape_char_prefix(a: char, b: char, x: Seq<char>, y: Seq<char>)
    requires
        json_escape_char(a) + x == json_escape_char(b) + y,
    ensures
        a == b,
        x == y,
{
    let ea = json_escape_char(a);
    let eb = json_escape_char(b);
    lemma_escape_char_head(a);
    lemma_escape_char_head(b);
    assert((ea + x)[0] == ea[0]);
    assert((eb + y)[0] == eb[0]);
    if ea.len() >= 2 && eb.len() >= 2 {
        assert((ea + x)[1] == ea[1]);
        assert((eb + y)[1] == eb[1]);
    }
    if ea.len() == 6 && eb.len() == 6 {
        assert((ea + x)[4] == ea[4]);
        assert((eb + y)[4] == eb[4]);
        assert((ea + x)[5] == ea[5]);
        assert((eb + y)[5] == eb[5]);
        let ca = a as u32;
        let cb = b as u32;
        lemma_hex_digit_injective((ca / 16) as nat, (cb / 16) as nat);
        lemma_hex_digit_injective((ca % 16) as nat, (cb % 16) as nat);
        assert(ca == cb) by (nonlinear_arith)
            requires
                ca / 16 == cb / 16,
                ca % 16 == cb % 16,
        ;
    }
    if ea.len() == 6 && eb.len() == 2 {
        assert((ea + x)[1] == 'u');
    }
    if ea.len() == 2 && eb.len() == 6 {
        assert((eb + y)[1] == 'u');
    }
    assert(a == b);
    assert(x =~= (ea + x).subrange(ea.len() as int, (ea + x).len() as int));
    assert(y =~= (eb + y).subrange(eb.len() as int, (eb + y).len() as int));
}

proof fn lemma_escape_prefix(a: Seq<char>, b: Seq<char>, x: Seq<char>, y: Seq<char>)
    requires
        json_escape(a) + x == json_escape(b) + y,
        x.len() > 0,
        x[0] == '"',
        y.len() > 0,
        y[0] == '"',
    ensures
        a == b,
        x == y,
    decreases a.len() + b.len(),
{
    if a.len() == 0 && b.len() == 0 {
        assert(json_escape(a) == Seq::<char>::empty());
        assert(json_escape(b) == Seq::<char>::empty());
        assert(x =~= json_escape(a) + x);
        assert(y =~= json_escape(b) + y);
        assert(a =~= b);
    } else if a.len() == 0 {
        lemma_escape_first(b);
        lemma_escape_char_head(b[0]);
        assert(json_escape(a) == Seq::<char>::empty());
        assert((json_escape(a) + x)[0] == '"');
        assert((json_escape(b) + y)[0] == json_escape_char(b[0])[0]);
    } else if b.len() == 0 {
        lemma_escape_first(a);
        lemma_escape_char_head(a[0]);
        assert(json_escape(b) == Seq::<char>::empty());
        assert((json_escape(b) + y)[0] == '"');
        assert((json_escape(a) + x)[0] == json_escape_char(a[0])[0]);
    } else {
        lemma_escape_first(a);
        lemma_escape_first(b);
        assert(json_escape(a) + x =~= json_escape_char(a[0]) + (json_escape(a.drop_first()) + x));
        assert(json_escape(b) + y =~= json_escape_char(b[0]) + (json_escape(b.drop_first()) + y));
        lemma_escape_char_prefix(a[0], b[0], json_escape(a.drop_first()) + x, json_escape(b.drop_first()) + y);
        lemma_escape_prefix(a.drop_first(), b.drop_first(), x, y);
        assert(a =~= seq![a[0]] + a.drop_first());
        assert(b =~= seq![b[0]] + b.drop_first());
    }
}

/// Two JSON string literals followed by anything are equal only when the strings
/// and what follows are.
pub proof fn lemma_json_string_prefix(a: Seq<char>, b: Seq<char>, x: Seq<char>, y: Seq<char>)
    requires
        json_string(a) + x == json_string(b) + y,
    ensures
        a == b,
        x == y,
{
    let xa = seq!['"'] + x;
    let yb = seq!['"'] + y;
    assert(json_string(a) + x =~= seq!['"'] + (json_escape(a) + xa));
    assert(json_string(b) + y =~= seq!['"'] + (json_escape(b) + yb));
    assert(json_escape(a) + xa =~= (json_string(a) + x).drop_first());
    assert(json_escape(b) + yb =~= (json_string(b) + y).drop_first());
    lemma_escape_prefix(a, b, xa, yb);
    assert(x =~= xa.drop_first());
    assert(y =~= yb.drop_first());
}

proof fn lemma_drop_common(p: Seq<char>, x: Seq<char>, y: Seq<char>)
    requires
        p + x == p + y,
    ensures
        x == y,
{
    assert(x =~= (p + x).subrange(p.len() as int, (p + x).len() as int));
    assert(y =~= (p + y).subrange(p.len() as int, (p + y).len() as int));
}

/// The link kind a name stands for, told apart by length and a few characters.
spec fn kind_named(s: Seq<char>) -> LinkKind {
    if s.len() == 6 {
        LinkKind::Amends
    } else if s.len() == 7 {
        LinkKind::Defines
    } else if s.len() == 8 {
        if s[0] == 'c' {
            LinkKind::Contains
        } else if s[0] == 'p' {
            LinkKind::Produces
        } else {
            LinkKind::Requires
        }
    } else if s.len() == 10 {
        if s[0] == 'i' {
            LinkKind::Implements
        } else if s[0] == 'd' {
            LinkKind::DependsOn
        } else {
            LinkKind::Supersedes
        }
    } else if s.len() == 11 {
        if s[0] == 'v' {
            LinkKind::VerifiedBy
        } else if s[2] == 'l' {
            LinkKind::RelevantTo
        } else {
            LinkKind::RequiredBy
        }
    } else if s.len() == 12 {
        if s[0] == 'd' {
            LinkKind::DerivedFrom
        } else if s[1] == 'x' {
            LinkKind::ExceptionTo
        } else {
            LinkKind::EvidenceFor
        }
    } else {
        LinkKind::ParticipatesIn
    }
}

proof fn lemma_kind_named(k: LinkKind)
    ensures
        kind_named(link_name(k)) == k,
{
    match k {
        LinkKind::Contains => {
            reveal_strlit("contains");
        },
        LinkKind::Defines => {
            reveal_strlit("defines");
        },
        LinkKind::Produces => {
            reveal_strlit("produces");
        },
        LinkKind::RelevantTo => {
            reveal_strlit("relevant_to");
        },
        LinkKind::ParticipatesIn => {
            reveal_strlit("participates_in");
        },
        LinkKind::Implements => {
            reveal_strlit("implements");
        },
        LinkKind::DependsOn => {
            reveal_strlit("depends_on");
        },
        LinkKind::Supersedes => {
            reveal_strlit("supersedes");
        },
        LinkKind::Amends => {
            reveal_strlit("amends");
        },
        LinkKind::ExceptionTo => {
            reveal_strlit("exception_to");
        },
        LinkKind::VerifiedBy => {
            reveal_strlit("verified_by");
        },
        LinkKind::DerivedFrom => {
            reveal_strlit("derived_from");
        },
        LinkKind::EvidenceFor => {
            reveal_strlit("evidence_for");
        },
        LinkKind::Requires => {
            reveal_strlit("requires");
        },
        LinkKind::RequiredBy => {
            reveal_strlit("required_by");
        },
    }
}

/// Distinct link kinds have distinct names.
pub proof fn lemma_link_name_injective(a: LinkKind, b: LinkKind)
    requires
        link_name(a) == link_name(b),
    ensures
        a == b,
{
    lemma_kind_named(a);
    lemma_kind_named(b);
}

/// The JSON text of an edge as nested pieces.
proof fn lemma_edge_json_shape(v: Seq<char>, i: Seq<char>, k: LinkKind, w: Seq<char>, j: Seq<char>)
    ensures
        edge_json_parts(v, i, k, w, j) == "{\"from\":{"@ + (json_string(v) + (":"@ + (json_string(i) + ("},\"kind\":"@ + (json_string(
            link_name(k),
        ) + (",\"to\":{"@ + (json_string(w) + (":"@ + (json_string(j) + "}}"@))))))))),
{
    reveal_strlit("{\"from\":");
    reveal_strlit("{");
    reveal_strlit(":");
    reveal_strlit("}");
    reveal_strlit(",\"kind\":");
    reveal_strlit(",\"to\":");
    reveal_strlit("{\"from\":{");
    reveal_strlit("},\"kind\":");
    reveal_strlit(",\"to\":{");
    reveal_strlit("}}");
    assert(edge_json_parts(v, i, k, w, j) =~= "{\"from\":{"@ + (json_string(v) + (":"@ + (json_string(i) + ("},\"kind\":"@ + (json_string(
        link_name(k),
    ) + (",\"to\":{"@ + (json_string(w) + (":"@ + (json_string(j) + "}}"@))))))))));
}

/// The JSON text of an edge determines its parts.
pub proof fn lemma_edge_json_parts_injective(
    v1: Seq<char>,
    i1: Seq<char>,
    k1: LinkKind,
    w1: Seq<char>,
    j1: Seq<char>,
    v2: Seq<char>,
    i2: Seq<char>,
    k2: LinkKind,
    w2: Seq<char>,
    j2: Seq<char>,
)
    requires
        edge_json_parts(v1, i1, k1, w1, j1) == edge_json_parts(v2, i2, k2, w2, j2),
    ensures
        v1 == v2,
        i1 == i2,
        k1 == k2,
        w1 == w2,
        j1 == j2,
{
    lemma_edge_json_shape(v1, i1, k1, w1, j1);
    lemma_edge_json_shape(v2, i2, k2, w2, j2);
    let tail = "}}"@;
    let u1 = ":"@ + (json_string(j1) + tail);
    let u2 = ":"@ + (json_string(j2) + tail);
    let t1 = ",\"to\":{"@ + (json_string(w1) + u1);
    let t2 = ",\"to\":{"@ + (json_string(w2) + u2);
    let s1 = "},\"kind\":"@ + (json_string(link_name(k1)) + t1);
    let s2 = "},\"kind\":"@ + (json_string(link_name(k2)) + t2);
    let r1 = ":"@ + (json_string(i1) + s1);
    let r2 = ":"@ + (json_string(i2) + s2);
    lemma_drop_common("{\"from\":{"@, json_string(v1) + r1, json_string(v2) + r2);
    lemma_json_string_prefix(v1, v2, r1, r2);
    lemma_drop_common(":"@, json_string(i1) + s1, json_string(i2) + s2);
    lemma_json_string_prefix(i1, i2, s1, s2);
    lemma_drop_common("},\"kind\":"@, json_string(link_name(k1)) + t1, json_string(link_name(k2)) + t2);
    lemma_json_string_prefix(link_name(k1), link_name(k2), t1, t2);
    lemma_link_name_injective(k1, k2);
    lemma_drop_common(",\"to\":{"@, json_string(w1) + u1, json_string(w2) + u2);
    lemma_json_string_prefix(w1, w2, u1, u2);
    lemma_drop_common(":"@, json_string(j1) + tail, json_string(j2) + tail);
    lemma_json_string_prefix(j1, j2, tail, tail);
}

/// Two edges with the same JSON text agree on their kind and on the variant and
/// identifier of each end.
pub proof fn lemma_edge_json_injective(x: GraphEdge, y: GraphEdge)
    requires
        edge_json(x) == edge_json(y),
    ensures
        node_variant(x.from) == node_variant(y.from),
        node_id(x.from) == node_id(y.from),
        x.kind == y.kind,
        node_variant(x.to) == node_variant(y.to),
        node_id(x.to) == node_id(y.to),
{
    lemma_edge_json_parts_injective(
        node_variant(x.from),
        node_id(x.from),
        x.kind,
        node_variant(x.to),
        node_id(x.to),
        node_variant(y.from),
        node_id(y.from),
        y.kind,
        node_variant(y.to),
        node_id(y.to),
    );
}

/// A node's variant name tells its variant.
pub proof fn lemma_node_variant_names(n: GraphNode)
    ensures
        node_variant(n) == "Fact"@ <==> n is Fact,
        node_variant(n) == "Constraint"@ <==> n is Constraint,
{
    reveal_strlit("Artifact");
    reveal_strlit("Decision");
    reveal_strlit("Constraint");
    reveal_strlit("Fact");
    reveal_strlit("ProofObligation");
    reveal_strlit("Evidence");
    match n {
        GraphNode::Fact(_) => {
            assert(node_variant(n).len() == 4);
        },
        GraphNode::Constraint(_) => {
            assert(node_variant(n).len() == 10);
        },
        GraphNode::ProofObligation(_) => {
            assert(node_variant(n).len() == 15);
        },
        _ => {
            assert(node_variant(n).len() == 8);
        },
    }
}

} // verus!
