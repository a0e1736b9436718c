//! SMT-LIB text for effective specifications and relational proof obligations.
//! Quantifiers over finite entity types are expanded over their members.
use vstd::prelude::*;
use crate::adr::{Clause, Decl, SDecl, SExpr, decl_views, strs};
use crate::effective::EffectiveSpecification;
use crate::lowering::constraint_key;
use crate::keyed::{Keyed, has_key, set_has, strictly_sorted, upsert, upsert_all, last_key, lemma_last_key_exists};
use crate::project::{GraphEdge, GraphNode, IntentConstraint, IntentDeclaration, LinkKind, ProjectFact, ProjectModel, RelationalFormula};
use crate::lowering::RelationalProofObligation;
use crate::text::{chars_of, cat, cat3, own, str_eq, string_from_chars};
use crate::typecheck::{env_map, is_bool, is_entity, is_member, relation_sig, rel_lookup, vocabulary, vocabulary_of};

verus! {

// ---------------------------------------------------------------------------
// Symbols and lists
// ---------------------------------------------------------------------------

pub open spec fn bar_free(s: Seq<char>) -> Seq<char> {
    s.map_values(|c: char| if c == '|' { '_' } else { c })
}

/// `|name|`, with any `|` inside replaced by `_`.
pub open spec fn sym(s: Seq<char>) -> Seq<char> {
    seq!['|'] + bar_free(s) + seq!['|']
}

/// The items separated by single spaces.
pub open spec fn join(s: Seq<Seq<char>>) -> Seq<char>
    decreases s.len(),
{
    if s.len() == 0 {
        Seq::empty()
    } else if s.len() == 1 {
        s[0]
    } else {
        join(s.drop_last()) + " "@ + s.last()
    }
}

/// The items one after another.
pub open spec fn concat(s: Seq<Seq<char>>) -> Seq<char>
    decreases s.len(),
{
    if s.len() == 0 {
        Seq::empty()
    } else {
        concat(s.drop_last()) + s.last()
    }
}

pub open spec fn syms(s: Seq<Seq<char>>) -> Seq<Seq<char>> {
    s.map_values(|x: Seq<char>| sym(x))
}

fn sym_exec(s: &str) -> (r: String)
    ensures
        r@ == sym(s@),
{
    let cs = chars_of(s);
    let mut out: Vec<char> = Vec::new();
    out.push('|');
    let mut i: usize = 0;
    while i < cs.len()
        invariant
            i <= cs@.len(),
            out@ == seq!['|'] + bar_free(cs@.take(i as int)),
        decreases cs.len() - i,
    {
        let c = cs[i];
        out.push(if c == '|' { '_' } else { c });
        proof {
            assert(bar_free(cs@.take(i + 1)) =~= bar_free(cs@.take(i as int)).push(if c == '|' { '_' } else { c }));
        }
        i = i + 1;
    }
    out.push('|');
    proof {
        assert(cs@.take(cs@.len() as int) =~= cs@);
    }
    string_from_chars(out.as_slice())
}

fn join_exec(v: &Vec<String>) -> (r: String)
    ensures
        r@ == join(strs(v@)),
{
    let mut r = String::new();
    let mut i: usize = 0;
    while i < v.len()
        invariant
            i <= v@.len(),
            r@ == join(strs(v@.take(i as int))),
        decreases v.len() - i,
    {
        proof {
            assert(strs(v@.take(i + 1)).drop_last() =~= strs(v@.take(i as int)));
            assert(strs(v@.take(i + 1)).last() == v@[i as int]@);
        }
        if i == 0 {
            r = v[0].clone();
        } else {
            r.append(" ");
            r.append(v[i].as_str());
        }
        i = i + 1;
    }
    proof {
        assert(v@.take(v@.len() as int) =~= v@);
    }
    r
}

// ---------------------------------------------------------------------------
// Emitting expressions
// ---------------------------------------------------------------------------

/// A name after substitution of the quantifier bindings.
pub open spec fn lookup(env: Map<Seq<char>, Seq<char>>, x: Seq<char>) -> Seq<char> {
    if env.contains_key(x) {
        env[x]
    } else {
        x
    }
}

/// The members of entity type `k` in an entity table (the last entry for `k`).
pub open spec fn members_in(ents: Seq<(Seq<char>, Seq<Seq<char>>)>, k: Seq<char>) -> Seq<Seq<char>>
    decreases ents.len(),
{
    if ents.len() == 0 {
        Seq::empty()
    } else if ents.last().0 == k {
        ents.last().1
    } else {
        members_in(ents.drop_last(), k)
    }
}

/// SMT-LIB text of an expression; a quantifier becomes the conjunction (`forall`) or
/// disjunction (`exists`) of its body over the members of its entity type.
pub open spec fn emit(e: SExpr, ents: Seq<(Seq<char>, Seq<Seq<char>>)>, env: Map<Seq<char>, Seq<char>>) -> Seq<char>
    decreases e, 1int, 0int,
{
    match e {
        SExpr::Bool(b) => if b {
            "true"@
        } else {
            "false"@
        },
        SExpr::Name(n) => sym(n),
        SExpr::Call(n, a) => "("@ + sym(n) + " "@ + join(a.map_values(|x: Seq<char>| sym(lookup(env, x)))) + ")"@,
        SExpr::Eq(a, b) => "(= "@ + sym(lookup(env, a)) + " "@ + sym(lookup(env, b)) + ")"@,
        SExpr::Ne(a, b) => "(not (= "@ + sym(lookup(env, a)) + " "@ + sym(lookup(env, b)) + "))"@,
        SExpr::Not(x) => "(not "@ + emit(*x, ents, env) + ")"@,
        SExpr::And(a, b) => "(and "@ + emit(*a, ents, env) + " "@ + emit(*b, ents, env) + ")"@,
        SExpr::Or(a, b) => "(or "@ + emit(*a, ents, env) + " "@ + emit(*b, ents, env) + ")"@,
        SExpr::Implies(a, b) => "(=> "@ + emit(*a, ents, env) + " "@ + emit(*b, ents, env) + ")"@,
        SExpr::Forall { ty, .. } => {
            let items = expand_items(e, ents, env, members_in(ents, ty));
            if items.len() == 0 {
                "true"@
            } else {
                "(and "@ + join(items) + ")"@
            }
        },
        SExpr::Exists { ty, .. } => {
            let items = expand_items(e, ents, env, members_in(ents, ty));
            if items.len() == 0 {
                "false"@
            } else {
                "(or "@ + join(items) + ")"@
            }
        },
    }
}

/// One instance of a quantifier per member: its body (guarded by `=>` for `forall`
/// and by `and` for `exists`) with the variable bound to the member.
pub open spec fn expand_items(
    q: SExpr,
    ents: Seq<(Seq<char>, Seq<Seq<char>>)>,
    env: Map<Seq<char>, Seq<char>>,
    members: Seq<Seq<char>>,
) -> Seq<Seq<char>>
    decreases q, 0int, members.len(),
{
    if members.len() == 0 {
        Seq::empty()
    } else {
        let prev = expand_items(q, ents, env, members.drop_last());
        match q {
            SExpr::Forall { var, guard, body, .. } => {
                let env2 = env.insert(var, members.last());
                let b = emit(*body, ents, env2);
                prev.push(
                    match guard {
                        Some(g) => "(=> "@ + emit(*g, ents, env2) + " "@ + b + ")"@,
                        None => b,
                    },
                )
            },
            SExpr::Exists { var, guard, body, .. } => {
                let env2 = env.insert(var, members.last());
                let b = emit(*body, ents, env2);
                prev.push(
                    match guard {
                        Some(g) => "(and "@ + emit(*g, ents, env2) + " "@ + b + ")"@,
                        None => b,
                    },
                )
            },
            _ => prev,
        }
    }
}

// ---------------------------------------------------------------------------
// What the emitted text means
// ---------------------------------------------------------------------------

/// The names after substitution of the quantifier bindings.
pub open spec fn lookup_all(env: Map<Seq<char>, Seq<char>>, a: Seq<Seq<char>>) -> Seq<Seq<char>> {
    a.map_values(|x: Seq<char>| lookup(env, x))
}

/// A term of SMT-LIB as the emitted text spells it.
pub enum SmtTerm {
    Lit(bool),
    Const(Seq<char>),
    Atom(Seq<char>, Seq<Seq<char>>),
    Equal(Seq<char>, Seq<char>),
    Not(Box<SmtTerm>),
    And(Seq<SmtTerm>),
    Or(Seq<SmtTerm>),
    Implies(Box<SmtTerm>, Box<SmtTerm>),
}

/// The SMT-LIB text of a term.
pub open spec fn render(t: SmtTerm) -> Seq<char>
    decreases t,
{
    match t {
        SmtTerm::Lit(b) => if b {
            "true"@
        } else {
            "false"@
        },
        SmtTerm::Const(n) => sym(n),
        SmtTerm::Atom(r, args) => "("@ + sym(r) + " "@ + join(syms(args)) + ")"@,
        SmtTerm::Equal(a, b) => "(= "@ + sym(a) + " "@ + sym(b) + ")"@,
        SmtTerm::Not(x) => "(not "@ + render(*x) + ")"@,
        SmtTerm::And(ts) => "(and "@ + join(render_all(ts)) + ")"@,
        SmtTerm::Or(ts) => "(or "@ + join(render_all(ts)) + ")"@,
        SmtTerm::Implies(a, b) => "(=> "@ + render(*a) + " "@ + render(*b) + ")"@,
    }
}

pub open spec fn render_all(ts: Seq<SmtTerm>) -> Seq<Seq<char>>
    decreases ts,
{
    if ts.len() == 0 {
        Seq::empty()
    } else {
        render_all(ts.drop_last()).push(render(ts.last()))
    }
}

/// The truth of a term, where `boolean` interprets the Boolean constants and `rel`
/// the relations (on entity members); distinct members are distinct values.
pub open spec fn eval(t: SmtTerm, boolean: spec_fn(Seq<char>) -> bool, rel: spec_fn(Seq<char>, Seq<Seq<char>>) -> bool) -> bool
    decreases t,
{
    match t {
        SmtTerm::Lit(b) => b,
        SmtTerm::Const(n) => boolean(n),
        SmtTerm::Atom(r, args) => rel(r, args),
        SmtTerm::Equal(a, b) => a == b,
        SmtTerm::Not(x) => !eval(*x, boolean, rel),
        SmtTerm::And(ts) => all_true(ts, boolean, rel),
        SmtTerm::Or(ts) => any_true(ts, boolean, rel),
        SmtTerm::Implies(a, b) => !eval(*a, boolean, rel) || eval(*b, boolean, rel),
    }
}

pub open spec fn all_true(ts: Seq<SmtTerm>, boolean: spec_fn(Seq<char>) -> bool, rel: spec_fn(Seq<char>, Seq<Seq<char>>) -> bool) -> bool
    decreases ts,
{
    if ts.len() == 0 {
        true
    } else {
        all_true(ts.drop_last(), boolean, rel) && eval(ts.last(), boolean, rel)
    }
}

pub open spec fn any_true(ts: Seq<SmtTerm>, boolean: spec_fn(Seq<char>) -> bool, rel: spec_fn(Seq<char>, Seq<Seq<char>>) -> bool) -> bool
    decreases ts,
{
    if ts.len() == 0 {
        false
    } else {
        any_true(ts.drop_last(), boolean, rel) || eval(ts.last(), boolean, rel)
    }
}

/// What a formula means, where `boolean` interprets its Boolean names and `rel` its
/// relations, quantifier variables are bound by `env`, and each entity type ranges
/// over its members in `ents`: a guarded `forall` holds when every member that
/// satisfies the guard satisfies the body, and a guarded `exists` holds when some
/// member satisfies both the guard and the body.
pub open spec fn holds(
    e: SExpr,
    ents: Seq<(Seq<char>, Seq<Seq<char>>)>,
    env: Map<Seq<char>, Seq<char>>,
    boolean: spec_fn(Seq<char>) -> bool,
    rel: spec_fn(Seq<char>, Seq<Seq<char>>) -> bool,
) -> bool
    decreases e,
{
    match e {
        SExpr::Bool(b) => b,
        SExpr::Name(n) => boolean(n),
        SExpr::Call(n, a) => rel(n, lookup_all(env, a)),
        SExpr::Eq(a, b) => lookup(env, a) == lookup(env, b),
        SExpr::Ne(a, b) => lookup(env, a) != lookup(env, b),
        SExpr::Not(x) => !holds(*x, ents, env, boolean, rel),
        SExpr::And(a, b) => holds(*a, ents, env, boolean, rel) && holds(*b, ents, env, boolean, rel),
        SExpr::Or(a, b) => holds(*a, ents, env, boolean, rel) || holds(*b, ents, env, boolean, rel),
        SExpr::Implies(a, b) => !holds(*a, ents, env, boolean, rel) || holds(*b, ents, env, boolean, rel),
        SExpr::Forall { var, ty, guard, body } => forall|i: int| 0 <= i < members_in(ents, ty).len() ==> ((match guard {
            Some(g) => holds(*g, ents, env.insert(var, #[trigger] members_in(ents, ty)[i]), boolean, rel),
            None => true,
        }) ==> holds(*body, ents, env.insert(var, members_in(ents, ty)[i]), boolean, rel)),
        SExpr::Exists { var, ty, guard, body } => exists|i: int| 0 <= i < members_in(ents, ty).len() && (match guard {
            Some(g) => holds(*g, ents, env.insert(var, #[trigger] members_in(ents, ty)[i]), boolean, rel),
            None => true,
        }) && holds(*body, ents, env.insert(var, members_in(ents, ty)[i]), boolean, rel),
    }
}

/// The term a formula is emitted as (see `emit`).
pub open spec fn term(e: SExpr, ents: Seq<(Seq<char>, Seq<Seq<char>>)>, env: Map<Seq<char>, Seq<char>>) -> SmtTerm
    decreases e, 1int, 0int,
{
    match e {
        SExpr::Bool(b) => SmtTerm::Lit(b),
        SExpr::Name(n) => SmtTerm::Const(n),
        SExpr::Call(n, a) => SmtTerm::Atom(n, lookup_all(env, a)),
        SExpr::Eq(a, b) => SmtTerm::Equal(lookup(env, a), lookup(env, b)),
        SExpr::Ne(a, b) => SmtTerm::Not(Box::new(SmtTerm::Equal(lookup(env, a), lookup(env, b)))),
        SExpr::Not(x) => SmtTerm::Not(Box::new(term(*x, ents, env))),
        SExpr::And(a, b) => SmtTerm::And(seq![term(*a, ents, env), term(*b, ents, env)]),
        SExpr::Or(a, b) => SmtTerm::Or(seq![term(*a, ents, env), term(*b, ents, env)]),
        SExpr::Implies(a, b) => SmtTerm::Implies(Box::new(term(*a, ents, env)), Box::new(term(*b, ents, env))),
        SExpr::Forall { ty, .. } => {
            let items = item_terms(e, ents, env, members_in(ents, ty));
            if items.len() == 0 {
                SmtTerm::Lit(true)
            } else {
                SmtTerm::And(items)
            }
        },
        SExpr::Exists { ty, .. } => {
            let items = item_terms(e, ents, env, members_in(ents, ty));
            if items.len() == 0 {
                SmtTerm::Lit(false)
            } else {
                SmtTerm::Or(items)
            }
        },
    }
}

pub open spec fn item_terms(
    q: SExpr,
    ents: Seq<(Seq<char>, Seq<Seq<char>>)>,
    env: Map<Seq<char>, Seq<char>>,
    members: Seq<Seq<char>>,
) -> Seq<SmtTerm>
    decreases q, 0int, members.len(),
{
    if members.len() == 0 {
        Seq::empty()
    } else {
        let prev = item_terms(q, ents, env, members.drop_last());
        match q {
            SExpr::Forall { var, guard, body, .. } => {
                let env2 = env.insert(var, members.last());
                let b = term(*body, ents, env2);
                prev.push(
                    match guard {
                        Some(g) => SmtTerm::Implies(Box::new(term(*g, ents, env2)), Box::new(b)),
                        None => b,
                    },
                )
            },
            SExpr::Exists { var, guard, body, .. } => {
                let env2 = env.insert(var, members.last());
                let b = term(*body, ents, env2);
                prev.push(
                    match guard {
                        Some(g) => SmtTerm::And(seq![term(*g, ents, env2), b]),
                        None => b,
                    },
                )
            },
            _ => prev,
        }
    }
}

/// What one instance of a quantifier means at member `x`: the guard implies the
/// body (`forall`), or the guard and the body both hold (`exists`).
spec fn instance_holds(
    q: SExpr,
    ents: Seq<(Seq<char>, Seq<Seq<char>>)>,
    env: Map<Seq<char>, Seq<char>>,
    x: Seq<char>,
    boolean: spec_fn(Seq<char>) -> bool,
    rel: spec_fn(Seq<char>, Seq<Seq<char>>) -> bool,
) -> bool {
    match q {
        SExpr::Forall { var, guard, body, .. } => (match guard {
            Some(g) => holds(*g, ents, env.insert(var, x), boolean, rel),
            None => true,
        }) ==> holds(*body, ents, env.insert(var, x), boolean, rel),
        SExpr::Exists { var, guard, body, .. } => (match guard {
            Some(g) => holds(*g, ents, env.insert(var, x), boolean, rel),
            None => true,
        }) && holds(*body, ents, env.insert(var, x), boolean, rel),
        _ => true,
    }
}

proof fn lemma_pair(a: SmtTerm, b: SmtTerm, boolean: spec_fn(Seq<char>) -> bool, rel: spec_fn(Seq<char>, Seq<Seq<char>>) -> bool)
    ensures
        join(render_all(seq![a, b])) == render(a) + " "@ + render(b),
        all_true(seq![a, b], boolean, rel) == (eval(a, boolean, rel) && eval(b, boolean, rel)),
        any_true(seq![a, b], boolean, rel) == (eval(a, boolean, rel) || eval(b, boolean, rel)),
{
    let s = seq![a, b];
    let e = Seq::<SmtTerm>::empty();
    assert(s.drop_last() =~= seq![a]);
    assert(seq![a].drop_last() =~= e);
    assert(render_all(e) == Seq::<Seq<char>>::empty());
    assert(all_true(e, boolean, rel));
    assert(!any_true(e, boolean, rel));
    assert(render_all(seq![a]) == render_all(e).push(render(a)));
    assert(render_all(seq![a]) =~= seq![render(a)]);
    assert(all_true(seq![a], boolean, rel) == eval(a, boolean, rel));
    assert(any_true(seq![a], boolean, rel) == eval(a, boolean, rel));
    assert(render_all(s) == render_all(seq![a]).push(render(b)));
    assert(render_all(s) =~= seq![render(a), render(b)]);
    assert(seq![render(a), render(b)].drop_last() =~= seq![render(a)]);
    assert(join(seq![render(a)]) == render(a));
}

proof fn lemma_items(
    q: SExpr,
    ents: Seq<(Seq<char>, Seq<Seq<char>>)>,
    env: Map<Seq<char>, Seq<char>>,
    m: Seq<Seq<char>>,
    boolean: spec_fn(Seq<char>) -> bool,
    rel: spec_fn(Seq<char>, Seq<Seq<char>>) -> bool,
)
    requires
        q is Forall || q is Exists,
    ensures
        item_terms(q, ents, env, m).len() == m.len(),
        render_all(item_terms(q, ents, env, m)) == expand_items(q, ents, env, m),
        q is Forall ==> (all_true(item_terms(q, ents, env, m), boolean, rel)
            <==> forall|i: int| 0 <= i < m.len() ==> instance_holds(q, ents, env, #[trigger] m[i], boolean, rel)),
        q is Exists ==> (any_true(item_terms(q, ents, env, m), boolean, rel)
            <==> exists|i: int| 0 <= i < m.len() && instance_holds(q, ents, env, #[trigger] m[i], boolean, rel)),
    decreases q, 0int, m.len(),
{
    if m.len() > 0 {
        let m0 = m.drop_last();
        lemma_items(q, ents, env, m0, boolean, rel);
        let it = item_terms(q, ents, env, m);
        assert(it.drop_last() =~= item_terms(q, ents, env, m0));
        let x = m.last();
        match q {
            SExpr::Forall { var, guard, body, .. } => {
                let env2 = env.insert(var, x);
                lemma_term(*body, ents, env2, boolean, rel);
                match guard {
                    Some(g) => {
                        lemma_term(*g, ents, env2, boolean, rel);
                    },
                    None => {},
                }
                assert(eval(it.last(), boolean, rel) == instance_holds(q, ents, env, x, boolean, rel));
                assert(render(it.last()) == expand_items(q, ents, env, m).last());
            },
            SExpr::Exists { var, guard, body, .. } => {
                let env2 = env.insert(var, x);
                lemma_term(*body, ents, env2, boolean, rel);
                match guard {
                    Some(g) => {
                        lemma_term(*g, ents, env2, boolean, rel);
                        lemma_pair(term(*g, ents, env2), term(*body, ents, env2), boolean, rel);
                    },
                    None => {},
                }
                assert(eval(it.last(), boolean, rel) == instance_holds(q, ents, env, x, boolean, rel));
                assert(render(it.last()) == expand_items(q, ents, env, m).last());
            },
            _ => {},
        }
        assert(render_all(it) =~= expand_items(q, ents, env, m));
        if q is Forall {
            if all_true(it, boolean, rel) {
                assert forall|i: int| 0 <= i < m.len() implies instance_holds(q, ents, env, #[trigger] m[i], boolean, rel) by {
                    if i < m.len() - 1 {
                        assert(m0[i] == m[i]);
                    }
                };
            }
            if forall|i: int| 0 <= i < m.len() ==> instance_holds(q, ents, env, #[trigger] m[i], boolean, rel) {
                assert forall|i: int| 0 <= i < m0.len() implies instance_holds(q, ents, env, #[trigger] m0[i], boolean, rel) by {
                    assert(m0[i] == m[i]);
                };
                assert(instance_holds(q, ents, env, m[m.len() - 1], boolean, rel));
            }
        } else {
            if any_true(it, boolean, rel) {
                if any_true(it.drop_last(), boolean, rel) {
                    let i = choose|i: int| 0 <= i < m0.len() && instance_holds(q, ents, env, #[trigger] m0[i], boolean, rel);
                    assert(m0[i] == m[i]);
                } else {
                    assert(instance_holds(q, ents, env, m[m.len() - 1], boolean, rel));
                }
            }
            if exists|i: int| 0 <= i < m.len() && instance_holds(q, ents, env, #[trigger] m[i], boolean, rel) {
                let i = choose|i: int| 0 <= i < m.len() && instance_holds(q, ents, env, #[trigger] m[i], boolean, rel);
                if i < m.len() - 1 {
                    assert(m0[i] == m[i]);
                }
            }
        }
    } else {
        assert(item_terms(q, ents, env, m) =~= Seq::<SmtTerm>::empty());
    }
}

proof fn lemma_call(
    e: SExpr,
    ents: Seq<(Seq<char>, Seq<Seq<char>>)>,
    env: Map<Seq<char>, Seq<char>>,
    boolean: spec_fn(Seq<char>) -> bool,
    rel: spec_fn(Seq<char>, Seq<Seq<char>>) -> bool,
)
    requires
        e is Call,
    ensures
        emit(e, ents, env) == render(term(e, ents, env)),
        eval(term(e, ents, env), boolean, rel) == holds(e, ents, env, boolean, rel),
{
    let n = e->Call_0;
    let a = e->Call_1;
    let args = lookup_all(env, a);
    assert(term(e, ents, env) == SmtTerm::Atom(n, args));
    assert(holds(e, ents, env, boolean, rel) == rel(n, args));
    assert(eval(SmtTerm::Atom(n, args), boolean, rel) == rel(n, args));
    assert(syms(args) =~= a.map_values(|x: Seq<char>| sym(lookup(env, x))));
    assert(render(SmtTerm::Atom(n, args)) == "("@ + sym(n) + " "@ + join(syms(args)) + ")"@);
    assert(emit(e, ents, env) == "("@ + sym(n) + " "@ + join(a.map_values(|x: Seq<char>| sym(lookup(env, x)))) + ")"@);
}

proof fn lemma_ne_text(x: Seq<char>, y: Seq<char>)
    ensures
        "(not (= "@ + x + " "@ + y + "))"@ == "(not "@ + ("(= "@ + x + " "@ + y + ")"@) + ")"@,
{
    reveal_strlit("(not (= ");
    reveal_strlit("(not ");
    reveal_strlit("(= ");
    reveal_strlit("))");
    reveal_strlit(")");
    assert("(not (= "@ + x + " "@ + y + "))"@ =~= "(not "@ + ("(= "@ + x + " "@ + y + ")"@) + ")"@);
}

proof fn lemma_quantifier(
    e: SExpr,
    ents: Seq<(Seq<char>, Seq<Seq<char>>)>,
    env: Map<Seq<char>, Seq<char>>,
    boolean: spec_fn(Seq<char>) -> bool,
    rel: spec_fn(Seq<char>, Seq<Seq<char>>) -> bool,
)
    requires
        e is Forall || e is Exists,
    ensures
        emit(e, ents, env) == render(term(e, ents, env)),
        eval(term(e, ents, env), boolean, rel) == holds(e, ents, env, boolean, rel),
    decreases e, 1int, 0int,
{
    match e {
        SExpr::Forall { var, ty, guard, body } => {
            let m = members_in(ents, ty);
            lemma_items(e, ents, env, m, boolean, rel);
            assert forall|i: int| 0 <= i < m.len() implies instance_holds(e, ents, env, #[trigger] m[i], boolean, rel) == ((match guard {
                Some(g) => holds(*g, ents, env.insert(var, m[i]), boolean, rel),
                None => true,
            }) ==> holds(*body, ents, env.insert(var, m[i]), boolean, rel)) by {};
        },
        SExpr::Exists { var, ty, guard, body } => {
            let m = members_in(ents, ty);
            lemma_items(e, ents, env, m, boolean, rel);
            assert forall|i: int| 0 <= i < m.len() implies instance_holds(e, ents, env, #[trigger] m[i], boolean, rel) == ((match guard {
                Some(g) => holds(*g, ents, env.insert(var, m[i]), boolean, rel),
                None => true,
            }) && holds(*body, ents, env.insert(var, m[i]), boolean, rel)) by {};
        },
        _ => {},
    }
}

pub open spec fn emits_meaning(
    e: SExpr,
    ents: Seq<(Seq<char>, Seq<Seq<char>>)>,
    env: Map<Seq<char>, Seq<char>>,
    boolean: spec_fn(Seq<char>) -> bool,
    rel: spec_fn(Seq<char>, Seq<Seq<char>>) -> bool,
) -> bool {
    &&& emit(e, ents, env) == render(term(e, ents, env))
    &&& eval(term(e, ents, env), boolean, rel) == holds(e, ents, env, boolean, rel)
}

proof fn lemma_leaf(
    e: SExpr,
    ents: Seq<(Seq<char>, Seq<Seq<char>>)>,
    env: Map<Seq<char>, Seq<char>>,
    boolean: spec_fn(Seq<char>) -> bool,
    rel: spec_fn(Seq<char>, Seq<Seq<char>>) -> bool,
)
    requires
        e is Bool || e is Name || e is Eq || e is Ne,
    ensures
        emits_meaning(e, ents, env, boolean, rel),
{
    match e {
        SExpr::Ne(a, b) => {
            lemma_ne_text(sym(lookup(env, a)), sym(lookup(env, b)));
            assert(term(e, ents, env) == SmtTerm::Not(Box::new(SmtTerm::Equal(lookup(env, a), lookup(env, b)))));
            assert(render(SmtTerm::Equal(lookup(env, a), lookup(env, b))) == "(= "@ + sym(lookup(env, a)) + " "@ + sym(lookup(env, b)) + ")"@);
            assert(eval(SmtTerm::Equal(lookup(env, a), lookup(env, b)), boolean, rel) == (lookup(env, a) == lookup(env, b)));
        },
        SExpr::Eq(a, b) => {
            assert(term(e, ents, env) == SmtTerm::Equal(lookup(env, a), lookup(env, b)));
        },
        SExpr::Bool(b) => {
            assert(term(e, ents, env) == SmtTerm::Lit(b));
        },
        SExpr::Name(n) => {
            assert(term(e, ents, env) == SmtTerm::Const(n));
        },
        _ => {},
    }
}

proof fn lemma_unary(
    e: SExpr,
    ents: Seq<(Seq<char>, Seq<Seq<char>>)>,
    env: Map<Seq<char>, Seq<char>>,
    boolean: spec_fn(Seq<char>) -> bool,
    rel: spec_fn(Seq<char>, Seq<Seq<char>>) -> bool,
)
    requires
        e is Not,
        emits_meaning(*e->Not_0, ents, env, boolean, rel),
    ensures
        emits_meaning(e, ents, env, boolean, rel),
{
}

proof fn lemma_binary(
    e: SExpr,
    a: SExpr,
    b: SExpr,
    ents: Seq<(Seq<char>, Seq<Seq<char>>)>,
    env: Map<Seq<char>, Seq<char>>,
    boolean: spec_fn(Seq<char>) -> bool,
    rel: spec_fn(Seq<char>, Seq<Seq<char>>) -> bool,
)
    requires
        e == SExpr::And(Box::new(a), Box::new(b)) || e == SExpr::Or(Box::new(a), Box::new(b))
            || e == SExpr::Implies(Box::new(a), Box::new(b)),
        emits_meaning(a, ents, env, boolean, rel),
        emits_meaning(b, ents, env, boolean, rel),
    ensures
        emits_meaning(e, ents, env, boolean, rel),
{
    lemma_pair(term(a, ents, env), term(b, ents, env), boolean, rel);
    assert(emit(e, ents, env) =~= render(term(e, ents, env)));
}

/// The SMT-LIB text emitted for a formula is the text of a term that, under every
/// interpretation of the Boolean names and relations, is true exactly when the
/// formula holds (see `holds`): quantifiers are expanded over the members of their
/// entity types, a guarded `forall` to implications and a guarded `exists` to
/// conjunctions of guard and body.
pub proof fn lemma_term(
    e: SExpr,
    ents: Seq<(Seq<char>, Seq<Seq<char>>)>,
    env: Map<Seq<char>, Seq<char>>,
    boolean: spec_fn(Seq<char>) -> bool,
    rel: spec_fn(Seq<char>, Seq<Seq<char>>) -> bool,
)
    ensures
        emit(e, ents, env) == render(term(e, ents, env)),
        eval(term(e, ents, env), boolean, rel) == holds(e, ents, env, boolean, rel),
    decreases e, 2int, 0int,
{
    match e {
        SExpr::Call(_, _) => {
            lemma_call(e, ents, env, boolean, rel);
        },
        SExpr::Not(x) => {
            lemma_term(*x, ents, env, boolean, rel);
            lemma_unary(e, ents, env, boolean, rel);
        },
        SExpr::And(a, b) => {
            lemma_term(*a, ents, env, boolean, rel);
            lemma_term(*b, ents, env, boolean, rel);
            lemma_binary(e, *a, *b, ents, env, boolean, rel);
        },
        SExpr::Or(a, b) => {
            lemma_term(*a, ents, env, boolean, rel);
            lemma_term(*b, ents, env, boolean, rel);
            lemma_binary(e, *a, *b, ents, env, boolean, rel);
        },
        SExpr::Implies(a, b) => {
            lemma_term(*a, ents, env, boolean, rel);
            lemma_term(*b, ents, env, boolean, rel);
            lemma_binary(e, *a, *b, ents, env, boolean, rel);
        },
        SExpr::Forall { .. } => {
            lemma_quantifier(e, ents, env, boolean, rel);
        },
        SExpr::Exists { .. } => {
            lemma_quantifier(e, ents, env, boolean, rel);
        },
        _ => {
            lemma_leaf(e, ents, env, boolean, rel);
        },
    }
}

/// An entity type with its members as an ordered set.
#[derive(Debug)]
pub struct EntitySet {
    pub name: String,
    pub members: Vec<String>,
}

impl Keyed for EntitySet {
    open spec fn key(&self) -> Seq<char> {
        self.name@
    }

    fn key_string(&self) -> (r: String) {
        self.name.clone()
    }
}

pub open spec fn entity_views(ents: Seq<EntitySet>) -> Seq<(Seq<char>, Seq<Seq<char>>)> {
    ents.map_values(|e: EntitySet| (e.name@, strs(e.members@)))
}

fn members_exec<'a>(ents: &'a Vec<EntitySet>, k: &str) -> (r: Option<&'a Vec<String>>)
    ensures
        r matches Some(m) ==> members_in(entity_views(ents@), k@) == strs(m@),
        r is None ==> members_in(entity_views(ents@), k@) == Seq::<Seq<char>>::empty(),
{
    let mut found: Option<usize> = None;
    let mut i: usize = 0;
    while i < ents.len()
        invariant
            i <= ents@.len(),
            found matches Some(j) ==> j < i && members_in(entity_views(ents@.take(i as int)), k@) == strs(
                ents@[j as int].members@,
            ),
            found is None ==> members_in(entity_views(ents@.take(i as int)), k@) == Seq::<Seq<char>>::empty(),
        decreases ents.len() - i,
    {
        proof {
            assert(entity_views(ents@.take(i + 1)).drop_last() =~= entity_views(ents@.take(i as int)));
        }
        if str_eq(ents[i].name.as_str(), k) {
            found = Some(i);
        }
        i = i + 1;
    }
    proof {
        assert(ents@.take(ents@.len() as int) =~= ents@);
    }
    match found {
        Some(j) => Some(&ents[j].members),
        None => None,
    }
}

fn env_lookup(env: &Vec<(String, String)>, x: &String) -> (r: String)
    ensures
        r@ == lookup(env_map(env@), x@),
{
    let mut found: Option<usize> = None;
    let mut i: usize = 0;
    while i < env.len()
        invariant
            i <= env@.len(),
            found matches Some(j) ==> j < i && env_map(env@.take(i as int)).contains_key(x@)
                && env_map(env@.take(i as int))[x@] == env@[j as int].1@,
            found is None ==> !env_map(env@.take(i as int)).contains_key(x@),
        decreases env.len() - i,
    {
        proof {
            assert(env@.take(i + 1).drop_last() =~= env@.take(i as int));
        }
        if str_eq(env[i].0.as_str(), x.as_str()) {
            found = Some(i);
        }
        i = i + 1;
    }
    proof {
        assert(env@.take(env@.len() as int) =~= env@);
    }
    match found {
        Some(j) => env[j].1.clone(),
        None => x.clone(),
    }
}

fn sym_list(env: &Vec<(String, String)>, a: &Vec<String>) -> (r: String)
    ensures
        r@ == join(strs(a@).map_values(|x: Seq<char>| sym(lookup(env_map(env@), x)))),
{
    let mut items: Vec<String> = Vec::new();
    let mut i: usize = 0;
    while i < a.len()
        invariant
            i <= a@.len(),
            strs(items@) == strs(a@.take(i as int)).map_values(|x: Seq<char>| sym(lookup(env_map(env@), x))),
        decreases a.len() - i,
    {
        let looked = env_lookup(env, &a[i]);
        let s = sym_exec(looked.as_str());
        let ghost i0 = items@;
        items.push(s);
        proof {
            assert(strs(items@) =~= strs(i0).push(s@));
            assert(strs(a@.take(i + 1)) =~= strs(a@.take(i as int)).push(a@[i as int]@));
            assert(strs(a@.take(i + 1)).map_values(|x: Seq<char>| sym(lookup(env_map(env@), x))) =~= strs(
                a@.take(i as int),
            ).map_values(|x: Seq<char>| sym(lookup(env_map(env@), x))).push(sym(lookup(env_map(env@), a@[i as int]@))));
        }
        i = i + 1;
    }
    proof {
        assert(a@.take(a@.len() as int) =~= a@);
    }
    join_exec(&items)
}

fn wrap(open: &str, inner: &str, close: &str) -> (r: String)
    ensures
        r@ == open@ + inner@ + close@,
{
    cat3(open, inner, close)
}

fn wrap2(open: &str, a: &str, b: &str, close: &str) -> (r: String)
    ensures
        r@ == open@ + a@ + " "@ + b@ + close@,
{
    let mut r = own(open);
    r.append(a);
    r.append(" ");
    r.append(b);
    r.append(close);
    r
}

/// The SMT-LIB text of a formula under the entity table and the bindings `env`.
fn emit_exec(f: &RelationalFormula, ents: &Vec<EntitySet>, env: &mut Vec<(String, String)>) -> (r: String)
    ensures
        r@ == emit(f@, entity_views(ents@), env_map(old(env)@)),
        final(env)@ == old(env)@,
    decreases f,
{
    let ghost ev = entity_views(ents@);
    match f {
        RelationalFormula::Bool(b) => if *b {
            own("true")
        } else {
            own("false")
        },
        RelationalFormula::Name(n) => sym_exec(n.as_str()),
        RelationalFormula::Relation(n, a) => {
            let s = sym_exec(n.as_str());
            let l = sym_list(env, a);
            wrap2("(", s.as_str(), l.as_str(), ")")
        },
        RelationalFormula::Eq(a, b) => {
            let x = env_lookup(env, a);
            let y = env_lookup(env, b);
            let sx = sym_exec(x.as_str());
            let sy = sym_exec(y.as_str());
            wrap2("(= ", sx.as_str(), sy.as_str(), ")")
        },
        RelationalFormula::Ne(a, b) => {
            let x = env_lookup(env, a);
            let y = env_lookup(env, b);
            let sx = sym_exec(x.as_str());
            let sy = sym_exec(y.as_str());
            wrap2("(not (= ", sx.as_str(), sy.as_str(), "))")
        },
        RelationalFormula::Not(x) => {
            let s = emit_exec(x, ents, env);
            wrap("(not ", s.as_str(), ")")
        },
        RelationalFormula::And(a, b) => {
            let x = emit_exec(a, ents, env);
            let y = emit_exec(b, ents, env);
            wrap2("(and ", x.as_str(), y.as_str(), ")")
        },
        RelationalFormula::Or(a, b) => {
            let x = emit_exec(a, ents, env);
            let y = emit_exec(b, ents, env);
            wrap2("(or ", x.as_str(), y.as_str(), ")")
        },
        RelationalFormula::Implies(a, b) => {
            let x = emit_exec(a, ents, env);
            let y = emit_exec(b, ents, env);
            wrap2("(=> ", x.as_str(), y.as_str(), ")")
        },
        RelationalFormula::Forall { variable, entity_type, guard, body } | RelationalFormula::Exists {
            variable,
            entity_type,
            guard,
            body,
        } => {
            let all = match f {
                RelationalFormula::Forall { .. } => true,
                _ => false,
            };
            let empty: Vec<String> = Vec::new();
            let members = match members_exec(ents, entity_type.as_str()) {
                Some(m) => m,
                None => &empty,
            };
            proof {
                assert(strs(members@) == members_in(ev, entity_type@));
            }
            let ghost e0 = env@;
            let mut items: Vec<String> = Vec::new();
            let mut i: usize = 0;
            while i < members.len()
                invariant
                    i <= members@.len(),
                    env@ == e0,
                    decreases_to!(f => body),
                    guard matches Some(g) ==> decreases_to!(f => g),
                    ev == entity_views(ents@),
                    all == (f@ is Forall),
                    f@ is Forall || f@ is Exists,
                    (f@ matches SExpr::Forall { var, guard: g, body: bd, .. } && var == variable@
                        && bd == Box::new(body@) && g == match guard {
                        Some(x) => Some(Box::new(x@)),
                        None => None,
                    }) || (f@ matches SExpr::Exists { var, guard: g, body: bd, .. } && var == variable@
                        && bd == Box::new(body@) && g == match guard {
                        Some(x) => Some(Box::new(x@)),
                        None => None,
                    }),
                    strs(items@) == expand_items(f@, ev, env_map(e0), strs(members@).take(i as int)),
                decreases members.len() - i,
            {
                env.push((variable.clone(), members[i].clone()));
                proof {
                    assert(env@.drop_last() =~= e0);
                    assert(env_map(env@) == env_map(e0).insert(variable@, members@[i as int]@));
                }
                let b = emit_exec(body, ents, env);
                let item = match guard {
                    Some(g) => {
                        let gs = emit_exec(g, ents, env);
                        if all {
                            wrap2("(=> ", gs.as_str(), b.as_str(), ")")
                        } else {
                            wrap2("(and ", gs.as_str(), b.as_str(), ")")
                        }
                    },
                    None => b,
                };
                env.pop();
                proof {
                    assert(env@ =~= e0);
                    let ms = strs(members@);
                    assert(ms.take(i + 1).drop_last() =~= ms.take(i as int));
                    assert(ms.take(i + 1).last() == members@[i as int]@);
                }
                let ghost i0 = items@;
                items.push(item);
                proof {
                    assert(strs(items@) =~= strs(i0).push(item@));
                }
                i = i + 1;
            }
            proof {
                assert(strs(members@).take(members@.len() as int) =~= strs(members@));
            }
            if items.len() == 0 {
                if all {
                    own("true")
                } else {
                    own("false")
                }
            } else {
                let j = join_exec(&items);
                if all {
                    wrap("(and ", j.as_str(), ")")
                } else {
                    wrap("(or ", j.as_str(), ")")
                }
            }
        },
    }
}


// ---------------------------------------------------------------------------
// Symbol tables
// ---------------------------------------------------------------------------

/// A relation with its argument types.
#[derive(Debug)]
pub struct RelationSig {
    pub name: String,
    pub arguments: Vec<String>,
}

impl Keyed for RelationSig {
    open spec fn key(&self) -> Seq<char> {
        self.name@
    }

    fn key_string(&self) -> (r: String) {
        self.name.clone()
    }
}

/// The declared vocabulary as ordered tables: Boolean constants, entity types with
/// their members, and relations (the last declaration of a name wins).
#[derive(Debug)]
pub struct SmtSymbols {
    pub bools: Vec<String>,
    pub entities: Vec<EntitySet>,
    pub relations: Vec<RelationSig>,
}

/// `t` holds exactly the vocabulary that `d` declares, each table in name order.
pub open spec fn symbols_of(t: SmtSymbols, d: Seq<SDecl>) -> bool {
    &&& strictly_sorted(t.bools@)
    &&& forall|n: Seq<char>| #[trigger] set_has(t.bools@, n) <==> is_bool(d, n)
    &&& strictly_sorted(t.entities@)
    &&& forall|k: Seq<char>| #[trigger] has_key(t.entities@, k) <==> is_entity(d, k)
    &&& forall|i: int| 0 <= i < t.entities@.len() ==> strictly_sorted(#[trigger] t.entities@[i].members@)
    &&& forall|i: int, m: Seq<char>|
        #![trigger set_has(t.entities@[i].members@, m)]
        0 <= i < t.entities@.len() ==> (set_has(t.entities@[i].members@, m) <==> is_member(d, t.entities@[i].name@, m))
    &&& strictly_sorted(t.relations@)
    &&& forall|k: Seq<char>| #[trigger] has_key(t.relations@, k) <==> relation_sig(d, k) is Some
    &&& forall|i: int| 0 <= i < t.relations@.len() ==> relation_sig(d, (#[trigger] t.relations@[i]).name@) == Some(
        strs(t.relations@[i].arguments@),
    )
}

proof fn lemma_strs_contains(v: Seq<String>, m: Seq<char>)
    ensures
        strs(v).contains(m) <==> set_has(v, m),
{
    if strs(v).contains(m) {
        let j = choose|j: int| 0 <= j < strs(v).len() && strs(v)[j] == m;
        assert(v[j]@ == m);
    }
    if set_has(v, m) {
        let j = choose|j: int| 0 <= j < v.len() && #[trigger] v[j]@ == m;
        assert(strs(v)[j] == m);
    }
}

proof fn lemma_rel_lookup_last(r: Seq<(String, Vec<String>)>, i: int)
    requires
        0 <= i < r.len(),
        forall|j: int| i < j < r.len() ==> (#[trigger] r[j]).0@ != r[i].0@,
    ensures
        rel_lookup(r, r[i].0@) == Some(strs(r[i].1@)),
    decreases r.len(),
{
    if i < r.len() - 1 {
        assert(r.last() == r[r.len() - 1]);
        assert(r.drop_last()[i] == r[i]);
        assert forall|j: int| i < j < r.drop_last().len() implies (#[trigger] r.drop_last()[j]).0@ != r.drop_last()[i].0@ by {
            assert(r.drop_last()[j] == r[j]);
        };
        lemma_rel_lookup_last(r.drop_last(), i);
    }
}

proof fn lemma_rel_lookup_some(r: Seq<(String, Vec<String>)>, k: Seq<char>)
    ensures
        rel_lookup(r, k) is Some <==> exists|j: int| 0 <= j < r.len() && (#[trigger] r[j]).0@ == k,
    decreases r.len(),
{
    if r.len() > 0 {
        lemma_rel_lookup_some(r.drop_last(), k);
        if exists|j: int| 0 <= j < r.drop_last().len() && (#[trigger] r.drop_last()[j]).0@ == k {
            let j = choose|j: int| 0 <= j < r.drop_last().len() && (#[trigger] r.drop_last()[j]).0@ == k;
            assert(r[j] == r.drop_last()[j]);
        }
        if exists|j: int| 0 <= j < r.len() && (#[trigger] r[j]).0@ == k {
            let j = choose|j: int| 0 <= j < r.len() && (#[trigger] r[j]).0@ == k;
            if j < r.len() - 1 {
                assert(r.drop_last()[j] == r[j]);
            }
        }
    }
}

/// The vocabulary of `decls` as ordered tables.
pub fn smt_symbols(decls: &Vec<Decl>) -> (t: SmtSymbols)
    ensures
        symbols_of(t, decl_views(decls@)),
{
    let ghost d = decl_views(decls@);
    let v = vocabulary(decls);
    let bools = crate::project::sorted_set(&v.bools);
    proof {
        assert forall|n: Seq<char>| #[trigger] set_has(bools@, n) <==> is_bool(d, n) by {
            lemma_strs_contains(v.bools@, n);
        };
    }
    let mut entities: Vec<EntitySet> = Vec::new();
    let mut i: usize = 0;
    while i < v.entities.len()
        invariant
            vocabulary_of(v, d),
            i <= v.entities@.len(),
            entities@.len() == i,
            forall|j: int| 0 <= j < i ==> (#[trigger] entities@[j]).name@ == v.entities@[j].name@,
            forall|j: int| 0 <= j < i ==> strictly_sorted(#[trigger] entities@[j].members@),
            forall|j: int, m: Seq<char>|
                #![trigger set_has(entities@[j].members@, m)]
                0 <= j < i ==> (set_has(entities@[j].members@, m) <==> is_member(d, entities@[j].name@, m)),
        decreases v.entities.len() - i,
    {
        let members = crate::project::sorted_set(&v.entities[i].members);
        let e = EntitySet { name: v.entities[i].name.clone(), members };
        proof {
            assert forall|m: Seq<char>| #[trigger] set_has(e.members@, m) <==> is_member(d, e.name@, m) by {
                lemma_strs_contains(v.entities@[i as int].members@, m);
                assert(set_has(v.entities@[i as int].members@, m) <==> is_member(d, v.entities@[i as int].name@, m));
            };
        }
        entities.push(e);
        i = i + 1;
    }
    proof {
        assert forall|a: int, b: int| 0 <= a < b < entities@.len() implies crate::text::seq_lt(
            #[trigger] entities@[a].key(),
            #[trigger] entities@[b].key(),
        ) by {
            assert(crate::text::seq_lt(v.entities@[a].key(), v.entities@[b].key()));
        };
        assert forall|k: Seq<char>| #[trigger] has_key(entities@, k) <==> is_entity(d, k) by {
            if has_key(entities@, k) {
                let j = choose|j: int| 0 <= j < entities@.len() && #[trigger] entities@[j].key() == k;
                assert(v.entities@[j].key() == k);
            }
            if has_key(v.entities@, k) {
                let j = choose|j: int| 0 <= j < v.entities@.len() && #[trigger] v.entities@[j].key() == k;
                assert(entities@[j].key() == k);
            }
        };
    }
    let mut items: Vec<RelationSig> = Vec::new();
    let mut i: usize = 0;
    while i < v.relations.len()
        invariant
            i <= v.relations@.len(),
            items@.len() == i,
            forall|j: int| 0 <= j < i ==> (#[trigger] items@[j]).name@ == v.relations@[j].0@ && strs(items@[j].arguments@)
                == strs(v.relations@[j].1@),
        decreases v.relations.len() - i,
    {
        items.push(RelationSig { name: v.relations[i].0.clone(), arguments: crate::project::clone_strings(&v.relations[i].1) });
        i = i + 1;
    }
    let ghost its = items@;
    let ghost r = v.relations@;
    let mut relations: Vec<RelationSig> = Vec::new();
    upsert_all(&mut relations, items);
    proof {
        assert forall|k: Seq<char>| #[trigger] has_key(relations@, k) <==> relation_sig(d, k) is Some by {
            lemma_rel_lookup_some(r, k);
            assert(rel_lookup(r, k) == relation_sig(d, k));
            if has_key(its, k) {
                let j = choose|j: int| 0 <= j < its.len() && #[trigger] its[j].key() == k;
                assert(r[j].0@ == k);
            }
            if exists|j: int| 0 <= j < r.len() && (#[trigger] r[j]).0@ == k {
                let j = choose|j: int| 0 <= j < r.len() && (#[trigger] r[j]).0@ == k;
                assert(its[j].key() == k);
            }
        };
        assert forall|q: int| 0 <= q < relations@.len() implies relation_sig(d, (#[trigger] relations@[q]).name@) == Some(
            strs(relations@[q].arguments@),
        ) by {
            let x = relations@[q];
            assert(relations@.contains(x));
            assert(has_key(relations@, x.key()));
            assert(has_key(its, x.key())) by {
                assert(relation_sig(d, x.key()) is Some);
                lemma_rel_lookup_some(r, x.key());
                assert(rel_lookup(r, x.key()) == relation_sig(d, x.key()));
                let j = choose|j: int| 0 <= j < r.len() && (#[trigger] r[j]).0@ == x.key();
                assert(its[j].key() == x.key());
            };
            let p = choose|p: int| 0 <= p < its.len() && last_key(its, p) && its[p] == x;
            assert forall|j: int| p < j < r.len() implies (#[trigger] r[j]).0@ != r[p].0@ by {
                assert(its[j].key() != its[p].key());
            };
            lemma_rel_lookup_last(r, p);
            assert(rel_lookup(r, x.name@) == relation_sig(d, x.name@));
        };
    }
    SmtSymbols { bools, entities, relations }
}

// ---------------------------------------------------------------------------
// Whole problems
// ---------------------------------------------------------------------------

pub open spec fn smt_header() -> Seq<char> {
    "(set-option :produce-unsat-cores true)\n(set-option :smt.core.minimize true)\n(set-option :print-success false)\n"@
}

pub open spec fn smt_footer() -> Seq<char> {
    "(check-sat)\n(get-unsat-core)\n"@
}

pub open spec fn declare_entity(e: EntitySet) -> Seq<char> {
    "(declare-datatypes (("@ + sym(e.name@) + " 0)) (("@ + join(syms(strs(e.members@))) + ")))\n"@
}

pub open spec fn declare_bool(b: String) -> Seq<char> {
    "(declare-const "@ + sym(b@) + " Bool)\n"@
}

pub open spec fn declare_relation(r: RelationSig) -> Seq<char> {
    "(declare-fun "@ + sym(r.name@) + " ("@ + join(syms(strs(r.arguments@))) + ") Bool)\n"@
}

/// The declarations of a symbol table: entity types, then constants, then relations.
pub open spec fn declarations_text(t: SmtSymbols) -> Seq<char> {
    concat(t.entities@.map_values(|e: EntitySet| declare_entity(e))) + concat(
        t.bools@.map_values(|b: String| declare_bool(b)),
    ) + concat(t.relations@.map_values(|r: RelationSig| declare_relation(r)))
}

/// `(assert (! body :named |name|))`.
pub open spec fn named_assert(body: Seq<char>, name: Seq<char>) -> Seq<char> {
    "(assert (! "@ + body + " :named "@ + sym(name) + "))\n"@
}

fn syms_exec(v: &Vec<String>) -> (r: String)
    ensures
        r@ == join(syms(strs(v@))),
{
    let mut items: Vec<String> = Vec::new();
    let mut i: usize = 0;
    while i < v.len()
        invariant
            i <= v@.len(),
            strs(items@) == syms(strs(v@.take(i as int))),
        decreases v.len() - i,
    {
        let s = sym_exec(v[i].as_str());
        let ghost i0 = items@;
        items.push(s);
        proof {
            assert(strs(items@) =~= strs(i0).push(s@));
            assert(syms(strs(v@.take(i + 1))) =~= syms(strs(v@.take(i as int))).push(sym(v@[i as int]@)));
        }
        i = i + 1;
    }
    proof {
        assert(v@.take(v@.len() as int) =~= v@);
    }
    join_exec(&items)
}

fn declarations_exec(t: &SmtSymbols) -> (r: String)
    ensures
        r@ == declarations_text(*t),
{
    let mut out = String::new();
    let ghost ents = t.entities@.map_values(|e: EntitySet| declare_entity(e));
    let mut i: usize = 0;
    while i < t.entities.len()
        invariant
            i <= t.entities@.len(),
            ents == t.entities@.map_values(|e: EntitySet| declare_entity(e)),
            out@ == concat(ents.take(i as int)),
        decreases t.entities.len() - i,
    {
        let e = &t.entities[i];
        let n = sym_exec(e.name.as_str());
        let m = syms_exec(&e.members);
        out.append("(declare-datatypes ((");
        out.append(n.as_str());
        out.append(" 0)) ((");
        out.append(m.as_str());
        out.append(")))\n");
        proof {
            assert(ents.take(i + 1).drop_last() =~= ents.take(i as int));
        }
        i = i + 1;
    }
    proof {
        assert(ents.take(ents.len() as int) =~= ents);
    }
    let ghost p1 = out@;
    let ghost bs = t.bools@.map_values(|b: String| declare_bool(b));
    let mut part = String::new();
    let mut i: usize = 0;
    while i < t.bools.len()
        invariant
            i <= t.bools@.len(),
            bs == t.bools@.map_values(|b: String| declare_bool(b)),
            part@ == concat(bs.take(i as int)),
        decreases t.bools.len() - i,
    {
        let n = sym_exec(t.bools[i].as_str());
        part.append("(declare-const ");
        part.append(n.as_str());
        part.append(" Bool)\n");
        proof {
            assert(bs.take(i + 1).drop_last() =~= bs.take(i as int));
        }
        i = i + 1;
    }
    proof {
        assert(bs.take(bs.len() as int) =~= bs);
    }
    out.append(part.as_str());
    let ghost rs = t.relations@.map_values(|r: RelationSig| declare_relation(r));
    let mut part = String::new();
    let mut i: usize = 0;
    while i < t.relations.len()
        invariant
            i <= t.relations@.len(),
            rs == t.relations@.map_values(|r: RelationSig| declare_relation(r)),
            part@ == concat(rs.take(i as int)),
        decreases t.relations.len() - i,
    {
        let r = &t.relations[i];
        let n = sym_exec(r.name.as_str());
        let a = syms_exec(&r.arguments);
        part.append("(declare-fun ");
        part.append(n.as_str());
        part.append(" (");
        part.append(a.as_str());
        part.append(") Bool)\n");
        proof {
            assert(rs.take(i + 1).drop_last() =~= rs.take(i as int));
        }
        i = i + 1;
    }
    proof {
        assert(rs.take(rs.len() as int) =~= rs);
    }
    out.append(part.as_str());
    out
}

fn named_assert_exec(body: &str, name: &str) -> (r: String)
    ensures
        r@ == named_assert(body@, name@),
{
    let n = sym_exec(name);
    let mut r = own("(assert (! ");
    r.append(body);
    r.append(" :named ");
    r.append(n.as_str());
    r.append("))\n");
    r
}


/// A clause is asserted when no selection is given or the selection names it.
pub open spec fn clause_selected(c: Clause, selected: Option<Seq<String>>) -> bool {
    match selected {
        Some(v) => set_has(v, constraint_key(c)),
        None => true,
    }
}

pub open spec fn clause_asserts(cs: Seq<Clause>, selected: Option<Seq<String>>, ev: Seq<(Seq<char>, Seq<Seq<char>>)>) -> Seq<Seq<char>> {
    cs.map_values(|c: Clause| if clause_selected(c, selected) {
        named_assert(emit(c.expression@, ev, Map::empty()), constraint_key(c))
    } else {
        Seq::empty()
    })
}

/// The SMT-LIB problem of an effective specification: the vocabulary, then each
/// selected clause as a named assertion (all clauses when no selection is given).
pub fn to_smt(spec: &EffectiveSpecification, selected: Option<&Vec<String>>) -> (r: String)
    ensures
        exists|t: SmtSymbols| #[trigger] symbols_of(t, decl_views(spec.declarations@)) && r@ == smt_header()
            + declarations_text(t) + concat(
            clause_asserts(
                spec.clauses@,
                match selected {
                    Some(v) => Some(v@),
                    None => None,
                },
                entity_views(t.entities@),
            ),
        ) + smt_footer(),
{
    let ghost sel = match selected {
        Some(v) => Some(v@),
        None => None,
    };
    let t = smt_symbols(&spec.declarations);
    let mut out = own("(set-option :produce-unsat-cores true)\n(set-option :smt.core.minimize true)\n(set-option :print-success false)\n");
    let decls = declarations_exec(&t);
    out.append(decls.as_str());
    let ghost ev = entity_views(t.entities@);
    let ghost items = clause_asserts(spec.clauses@, sel, ev);
    let cs = &spec.clauses;
    let mut part = String::new();
    let mut i: usize = 0;
    while i < cs.len()
        invariant
            i <= cs@.len(),
            ev == entity_views(t.entities@),
            items == clause_asserts(cs@, sel, ev),
            sel == match selected {
                Some(v) => Some(v@),
                None => None,
            },
            part@ == concat(items.take(i as int)),
        decreases cs.len() - i,
    {
        let c = &cs[i];
        let key = constraint_id_text(c);
        let chosen = match selected {
            Some(v) => crate::keyed::contains_str(v, key.as_str()),
            None => true,
        };
        if chosen {
            let f = RelationalFormula::from_expr(&c.expression);
            let mut env: Vec<(String, String)> = Vec::new();
            proof {
                assert(env_map(env@) =~= Map::<Seq<char>, Seq<char>>::empty());
            }
            let body = emit_exec(&f, &t.entities, &mut env);
            let a = named_assert_exec(body.as_str(), key.as_str());
            part.append(a.as_str());
        }
        proof {
            assert(items.take(i + 1).drop_last() =~= items.take(i as int));
            assert(items[i as int] == if clause_selected(cs@[i as int], sel) {
                named_assert(emit(cs@[i as int].expression@, ev, Map::empty()), constraint_key(cs@[i as int]))
            } else {
                Seq::<char>::empty()
            });
            if !chosen {
                assert(part@ =~= concat(items.take(i as int)) + Seq::<char>::empty());
            }
        }
        i = i + 1;
    }
    proof {
        assert(items.take(items.len() as int) =~= items);
    }
    out.append(part.as_str());
    out.append("(check-sat)\n(get-unsat-core)\n");
    out
}

fn constraint_id_text(c: &Clause) -> (r: String)
    ensures
        r@ == constraint_key(*c),
{
    cat3(c.adr_id.as_str(), ":", c.id.as_str())
}


// ---------------------------------------------------------------------------
// Proof obligations
// ---------------------------------------------------------------------------

/// The ADRLogic view of an intent declaration.
pub open spec fn intent_decl_view(d: IntentDeclaration) -> SDecl {
    match d {
        IntentDeclaration::Bool(n) => SDecl::Bool(n@),
        IntentDeclaration::EntityType { name, members } => SDecl::EntityType { name: name@, members: strs(members@) },
        IntentDeclaration::Relation { name, arguments } => SDecl::Relation { name: name@, args: strs(arguments@) },
    }
}

pub open spec fn intent_decl_views(s: Seq<IntentDeclaration>) -> Seq<SDecl> {
    s.map_values(|d: IntentDeclaration| intent_decl_view(d))
}

fn intent_decls(s: &Vec<IntentDeclaration>) -> (r: Vec<Decl>)
    ensures
        decl_views(r@) == intent_decl_views(s@),
{
    let mut r: Vec<Decl> = Vec::new();
    let mut i: usize = 0;
    while i < s.len()
        invariant
            i <= s@.len(),
            decl_views(r@) == intent_decl_views(s@.take(i as int)),
        decreases s.len() - i,
    {
        let d = match &s[i] {
            IntentDeclaration::Bool(n) => Decl::Bool(n.clone()),
            IntentDeclaration::EntityType { name, members } => Decl::EntityType {
                name: name.clone(),
                members: crate::project::clone_strings(members),
            },
            IntentDeclaration::Relation { name, arguments } => Decl::Relation {
                name: name.clone(),
                args: crate::project::clone_strings(arguments),
            },
        };
        let ghost r0 = r@;
        r.push(d);
        proof {
            assert(decl_views(r@) =~= decl_views(r0).push(d@));
            assert(intent_decl_views(s@.take(i + 1)) =~= intent_decl_views(s@.take(i as int)).push(intent_decl_view(s@[i as int])));
        }
        i = i + 1;
    }
    proof {
        assert(s@.take(s@.len() as int) =~= s@);
    }
    r
}

/// Some edge links the fact to a constraint it is relevant to.
pub open spec fn relevant_fact(edges: Seq<GraphEdge>, f: ProjectFact) -> bool {
    exists|j: int| 0 <= j < edges.len() && relevance_edge(#[trigger] edges[j], f)
}

/// `e` runs from fact `f` to a constraint, as a relevance link.
pub open spec fn relevance_edge(e: GraphEdge, f: ProjectFact) -> bool {
    &&& e.from matches GraphNode::Fact(x) && x.0@ == f.id.0@
    &&& e.kind == LinkKind::RelevantTo
    &&& e.to is Constraint
}

/// The value of attribute `k` (the first entry with that name).
pub open spec fn attr_get(attrs: Seq<(String, String)>, k: Seq<char>) -> Option<Seq<char>>
    decreases attrs.len(),
{
    if attrs.len() == 0 {
        None
    } else if attrs[0].0@ == k {
        Some(attrs[0].1@)
    } else {
        attr_get(attrs.drop_first(), k)
    }
}

/// Dependency facts are asserted only for normal, non-optional, untargeted dependencies.
pub open spec fn solver_supported(f: ProjectFact) -> bool {
    ||| f.relation@ != "declares_direct_dependency"@
    ||| {
        &&& (attr_get(f.attributes@, "kind"@) matches Some(v) ==> v == "normal"@)
        &&& (attr_get(f.attributes@, "optional"@) matches Some(v) ==> v == "false"@)
        &&& (attr_get(f.attributes@, "target"@) matches Some(v) ==> v.len() == 0)
    }
}

pub open spec fn fact_atom(f: ProjectFact) -> Seq<char> {
    "("@ + sym(f.relation@) + " "@ + join(syms(strs(f.arguments@))) + ")"@
}

/// The named assertion of a fact: its atom, negated for a false fact.
pub open spec fn fact_assert(f: ProjectFact) -> Seq<char> {
    named_assert(
        if f.value {
            fact_atom(f)
        } else {
            "(not "@ + fact_atom(f) + ")"@
        },
        "FACT:"@ + f.id.0@,
    )
}

/// A fact is asserted when it is relevant to a constraint, its relation is declared
/// and the solver can represent it.
pub open spec fn fact_asserted(m: ProjectModel, t: SmtSymbols, f: ProjectFact) -> bool {
    relevant_fact(m.edges@, f) && has_key(t.relations@, f.relation@) && solver_supported(f)
}

pub open spec fn constraint_asserts(cs: Seq<IntentConstraint>, ev: Seq<(Seq<char>, Seq<Seq<char>>)>) -> Seq<Seq<char>> {
    cs.map_values(|c: IntentConstraint| named_assert(emit(c.formula@, ev, Map::empty()), c.id.0@))
}

pub open spec fn fact_asserts(m: ProjectModel, t: SmtSymbols) -> Seq<Seq<char>> {
    m.facts@.map_values(|f: ProjectFact| if fact_asserted(m, t, f) {
        fact_assert(f)
    } else {
        Seq::empty()
    })
}

fn attr_get_exec(attrs: &Vec<(String, String)>, k: &str) -> (r: Option<String>)
    ensures
        r matches Some(v) ==> attr_get(attrs@, k@) == Some(v@),
        r is None ==> attr_get(attrs@, k@) is None,
{
    let mut i: usize = 0;
    proof {
        assert(attrs@.subrange(0, attrs@.len() as int) =~= attrs@);
    }
    while i < attrs.len()
        invariant
            i <= attrs@.len(),
            attr_get(attrs@, k@) == attr_get(attrs@.subrange(i as int, attrs@.len() as int), k@),
        decreases attrs.len() - i,
    {
        let ghost rest = attrs@.subrange(i as int, attrs@.len() as int);
        proof {
            assert(rest[0] == attrs@[i as int]);
            assert(rest.drop_first() =~= attrs@.subrange(i + 1, attrs@.len() as int));
        }
        if str_eq(attrs[i].0.as_str(), k) {
            return Some(attrs[i].1.clone());
        }
        i = i + 1;
    }
    None
}

pub fn fact_is_solver_supported(fact: &ProjectFact) -> (r: bool)
    ensures
        r == solver_supported(*fact),
{
    if !str_eq(fact.relation.as_str(), "declares_direct_dependency") {
        return true;
    }
    let kind_ok = match attr_get_exec(&fact.attributes, "kind") {
        Some(v) => str_eq(v.as_str(), "normal"),
        None => true,
    };
    let optional_ok = match attr_get_exec(&fact.attributes, "optional") {
        Some(v) => str_eq(v.as_str(), "false"),
        None => true,
    };
    let target_ok = match attr_get_exec(&fact.attributes, "target") {
        Some(v) => {
            let e = str_eq(v.as_str(), "");
            proof {
                reveal_strlit("");
                if v@.len() == 0 {
                    assert(v@ =~= ""@);
                }
            }
            e
        },
        None => true,
    };
    proof {
        reveal_strlit("");
    }
    kind_ok && optional_ok && target_ok
}

fn relevant_exec(edges: &Vec<GraphEdge>, f: &ProjectFact) -> (r: bool)
    ensures
        r == relevant_fact(edges@, *f),
{
    let mut j: usize = 0;
    while j < edges.len()
        invariant
            j <= edges@.len(),
            forall|q: int| 0 <= q < j ==> !relevance_edge(#[trigger] edges@[q], *f),
        decreases edges.len() - j,
    {
        let e = &edges[j];
        let from_fact = match &e.from {
            GraphNode::Fact(x) => str_eq(x.0.as_str(), f.id.0.as_str()),
            _ => false,
        };
        let to_constraint = match &e.to {
            GraphNode::Constraint(_) => true,
            _ => false,
        };
        if from_fact && e.kind == LinkKind::RelevantTo && to_constraint {
            return true;
        }
        j = j + 1;
    }
    false
}

/// The SMT-LIB problem of a proof obligation: the vocabulary, each constraint as a
/// named assertion, then each relevant, declared and supported fact.
pub fn obligation_to_smt(obligation: &RelationalProofObligation) -> (r: String)
    ensures
        exists|t: SmtSymbols| #[trigger] symbols_of(t, intent_decl_views(obligation.model.declarations@)) && r@ == smt_header()
            + declarations_text(t) + concat(constraint_asserts(obligation.model.constraints@, entity_views(t.entities@)))
            + concat(fact_asserts(obligation.model, t)) + smt_footer(),
{
    let m = &obligation.model;
    let decls = intent_decls(&m.declarations);
    let t = smt_symbols(&decls);
    let mut out = own("(set-option :produce-unsat-cores true)\n(set-option :smt.core.minimize true)\n(set-option :print-success false)\n");
    let d = declarations_exec(&t);
    out.append(d.as_str());
    let ghost ev = entity_views(t.entities@);
    let ghost items = constraint_asserts(m.constraints@, ev);
    let mut part = String::new();
    let mut i: usize = 0;
    while i < m.constraints.len()
        invariant
            i <= m.constraints@.len(),
            ev == entity_views(t.entities@),
            items == constraint_asserts(m.constraints@, ev),
            part@ == concat(items.take(i as int)),
        decreases m.constraints.len() - i,
    {
        let c = &m.constraints[i];
        let mut env: Vec<(String, String)> = Vec::new();
        proof {
            assert(env_map(env@) =~= Map::<Seq<char>, Seq<char>>::empty());
        }
        let body = emit_exec(&c.formula, &t.entities, &mut env);
        let a = named_assert_exec(body.as_str(), c.id.0.as_str());
        part.append(a.as_str());
        proof {
            assert(items.take(i + 1).drop_last() =~= items.take(i as int));
        }
        i = i + 1;
    }
    proof {
        assert(items.take(items.len() as int) =~= items);
    }
    out.append(part.as_str());
    let ghost fitems = fact_asserts(*m, t);
    let mut part = String::new();
    let mut i: usize = 0;
    while i < m.facts.len()
        invariant
            i <= m.facts@.len(),
            fitems == fact_asserts(*m, t),
            strictly_sorted(t.relations@),
            part@ == concat(fitems.take(i as int)),
        decreases m.facts.len() - i,
    {
        let f = &m.facts[i];
        let relevant = relevant_exec(&m.edges, f);
        let declared = crate::keyed::find_key(&t.relations, f.relation.as_str()).is_some();
        let supported = fact_is_solver_supported(f);
        if relevant && declared && supported {
            let rel = sym_exec(f.relation.as_str());
            let args = syms_exec(&f.arguments);
            let atom = wrap2("(", rel.as_str(), args.as_str(), ")");
            let body = if f.value {
                atom
            } else {
                wrap("(not ", atom.as_str(), ")")
            };
            let name = cat("FACT:", f.id.0.as_str());
            let a = named_assert_exec(body.as_str(), name.as_str());
            part.append(a.as_str());
        }
        proof {
            assert(fitems.take(i + 1).drop_last() =~= fitems.take(i as int));
            if !(relevant && declared && supported) {
                assert(part@ =~= concat(fitems.take(i as int)) + Seq::<char>::empty());
            }
        }
        i = i + 1;
    }
    proof {
        assert(fitems.take(fitems.len() as int) =~= fitems);
    }
    out.append(part.as_str());
    out.append("(check-sat)\n(get-unsat-core)\n");
    out
}

} // verus!
