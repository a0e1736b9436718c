//! Typing of ADRLogic clauses against the declared vocabulary.
use vstd::prelude::*;
use crate::adr::{Clause, Decl, Error, Expr, SDecl, SExpr, strs, decl_views};
use crate::keyed::{Keyed, has_key, strictly_sorted, upsert, contains_str, set_has};
use crate::text::{cat, cat3, decimal_string, own, seq_lt, seq_le, str_eq, lemma_lt_total, lemma_lt_asymmetric, lemma_lt_transitive, lemma_lt_irreflexive};

verus! {

// ---------------------------------------------------------------------------
// The vocabulary declared by a sequence of declarations
// ---------------------------------------------------------------------------

pub open spec fn is_bool(d: Seq<SDecl>, n: Seq<char>) -> bool {
    exists|i: int| 0 <= i < d.len() && #[trigger] d[i] == SDecl::Bool(n)
}

pub open spec fn decl_has_member(x: SDecl, ty: Seq<char>, m: Seq<char>) -> bool {
    x matches SDecl::EntityType { name, members } && name == ty && members.contains(m)
}

pub open spec fn decl_is_entity(x: SDecl, ty: Seq<char>) -> bool {
    x matches SDecl::EntityType { name, .. } && name == ty
}

/// `m` is declared a member of entity type `ty` (members of equally named entity
/// declarations accumulate).
pub open spec fn is_member(d: Seq<SDecl>, ty: Seq<char>, m: Seq<char>) -> bool {
    exists|i: int| 0 <= i < d.len() && decl_has_member(#[trigger] d[i], ty, m)
}

pub open spec fn is_entity(d: Seq<SDecl>, ty: Seq<char>) -> bool {
    exists|i: int| 0 <= i < d.len() && decl_is_entity(#[trigger] d[i], ty)
}

/// Argument types of relation `n`: the last declaration of `n` wins.
pub open spec fn relation_sig(d: Seq<SDecl>, n: Seq<char>) -> Option<Seq<Seq<char>>>
    decreases d.len(),
{
    if d.len() == 0 {
        None
    } else {
        match d.last() {
            SDecl::Relation { name, args } => if name == n {
                Some(args)
            } else {
                relation_sig(d.drop_last(), n)
            },
            _ => relation_sig(d.drop_last(), n),
        }
    }
}

/// The first (in name order) entity type that declares `a` a member.
pub open spec fn entity_type_of(d: Seq<SDecl>, a: Seq<char>) -> Option<Seq<char>> {
    if exists|t: Seq<char>| is_member(d, t, a) {
        Some(
            choose|t: Seq<char>|
                is_member(d, t, a) && forall|u: Seq<char>| is_member(d, u, a) ==> seq_le(t, u),
        )
    } else {
        None
    }
}

/// The type of a term: its quantifier binding, else the entity type that declares it.
pub open spec fn term_type(d: Seq<SDecl>, env: Map<Seq<char>, Seq<char>>, a: Seq<char>) -> Option<
    Seq<char>,
> {
    if env.contains_key(a) {
        Some(env[a])
    } else {
        entity_type_of(d, a)
    }
}

pub open spec fn arg_ok(d: Seq<SDecl>, env: Map<Seq<char>, Seq<char>>, a: Seq<char>, t: Seq<char>) -> bool {
    (env.contains_key(a) && env[a] == t) || is_member(d, t, a)
}

/// Type checking of an expression under a binding environment. The result pairs
/// well-typedness with the environment after the check: a quantifier binds its
/// variable for its guard and body and then unbinds that name.
pub open spec fn check(d: Seq<SDecl>, e: SExpr, env: Map<Seq<char>, Seq<char>>) -> (bool, Map<
    Seq<char>,
    Seq<char>,
>)
    decreases e,
{
    match e {
        SExpr::Bool(_) => (true, env),
        SExpr::Name(n) => (is_bool(d, n), env),
        SExpr::Call(n, args) => (
            match relation_sig(d, n) {
                Some(sig) => sig.len() == args.len() && forall|i: int|
                    0 <= i < args.len() ==> arg_ok(d, env, #[trigger] args[i], sig[i]),
                None => false,
            },
            env,
        ),
        SExpr::Eq(a, b) => (term_type(d, env, a) is Some && term_type(d, env, a) == term_type(
            d,
            env,
            b,
        ), env),
        SExpr::Ne(a, b) => (term_type(d, env, a) is Some && term_type(d, env, a) == term_type(
            d,
            env,
            b,
        ), env),
        SExpr::Not(x) => check(d, *x, env),
        SExpr::And(a, b) => {
            let (ok, env1) = check(d, *a, env);
            if ok {
                check(d, *b, env1)
            } else {
                (false, env1)
            }
        },
        SExpr::Or(a, b) => {
            let (ok, env1) = check(d, *a, env);
            if ok {
                check(d, *b, env1)
            } else {
                (false, env1)
            }
        },
        SExpr::Implies(a, b) => {
            let (ok, env1) = check(d, *a, env);
            if ok {
                check(d, *b, env1)
            } else {
                (false, env1)
            }
        },
        SExpr::Forall { var, ty, guard, body } => {
            if !is_entity(d, ty) {
                (false, env)
            } else {
                let env1 = env.insert(var, ty);
                let (gok, env2) = match guard {
                    Some(g) => check(d, *g, env1),
                    None => (true, env1),
                };
                if !gok {
                    (false, env2)
                } else {
                    let (bok, env3) = check(d, *body, env2);
                    (bok, env3.remove(var))
                }
            }
        },
        SExpr::Exists { var, ty, guard, body } => {
            if !is_entity(d, ty) {
                (false, env)
            } else {
                let env1 = env.insert(var, ty);
                let (gok, env2) = match guard {
                    Some(g) => check(d, *g, env1),
                    None => (true, env1),
                };
                if !gok {
                    (false, env2)
                } else {
                    let (bok, env3) = check(d, *body, env2);
                    (bok, env3.remove(var))
                }
            }
        },
    }
}

// ---------------------------------------------------------------------------
// Executable vocabulary tables
// ---------------------------------------------------------------------------

/// An entity type with the union of its declared members.
pub struct EntityEntry {
    pub name: String,
    pub members: Vec<String>,
}

impl Keyed for EntityEntry {
    open spec fn key(&self) -> Seq<char> {
        self.name@
    }

    fn key_string(&self) -> (r: String) {
        self.name.clone()
    }
}

/// The declared vocabulary in lookup form.
pub struct Vocabulary {
    pub bools: Vec<String>,
    pub entities: Vec<EntityEntry>,
    pub relations: Vec<(String, Vec<String>)>,
}

pub open spec fn vocabulary_of(v: Vocabulary, d: Seq<SDecl>) -> bool {
    &&& forall|n: Seq<char>| set_has(v.bools@, n) <==> is_bool(d, n)
    &&& strictly_sorted(v.entities@)
    &&& forall|t: Seq<char>| has_key(v.entities@, t) <==> is_entity(d, t)
    &&& forall|i: int, m: Seq<char>|
        #![trigger set_has(v.entities@[i].members@, m)]
        #![trigger is_member(d, v.entities@[i].name@, m)]
        0 <= i < v.entities@.len() ==> (set_has(v.entities@[i].members@, m)
            <==> is_member(d, v.entities@[i].name@, m))
    &&& forall|n: Seq<char>| rel_lookup(v.relations@, n) == relation_sig(d, n)
}

/// Argument types of `n` in a relation table (the last entry for `n` wins).
pub open spec fn rel_lookup(r: Seq<(String, Vec<String>)>, n: Seq<char>) -> Option<Seq<Seq<char>>>
    decreases r.len(),
{
    if r.len() == 0 {
        None
    } else if r.last().0@ == n {
        Some(strs(r.last().1@))
    } else {
        rel_lookup(r.drop_last(), n)
    }
}

proof fn lemma_member_implies_entity(d: Seq<SDecl>, t: Seq<char>, m: Seq<char>)
    requires
        is_member(d, t, m),
    ensures
        is_entity(d, t),
{
    let i = choose|i: int| 0 <= i < d.len() && decl_has_member(#[trigger] d[i], t, m);
    assert(decl_is_entity(d[i], t));
}

fn union_members(a: &Vec<String>, more: &Vec<String>) -> (r: Vec<String>)
    ensures
        forall|m: Seq<char>| #[trigger] set_has(r@, m) <==> (set_has(a@, m) || set_has(more@, m)),
{
    let mut v = crate::project::clone_strings(a);
    add_members(&mut v, more);
    v
}

pub(crate) fn add_members(v: &mut Vec<String>, more: &Vec<String>)
    ensures
        forall|m: Seq<char>| #[trigger] set_has(final(v)@, m) <==> (set_has(old(v)@, m) || set_has(more@, m)),
{
    let mut i: usize = 0;
    while i < more.len()
        invariant
            i <= more@.len(),
            forall|m: Seq<char>| set_has(v@, m) <==> (set_has(old(v)@, m) || set_has(more@.subrange(0, i as int), m)),
        decreases more.len() - i,
    {
        let ghost before = v@;
        v.push(more[i].clone());
        proof {
            assert forall|m: Seq<char>| set_has(v@, m) <==> (set_has(old(v)@, m) || set_has(more@.subrange(0, i + 1), m)) by {
                let p = more@.subrange(0, i + 1);
                if set_has(v@, m) {
                    let j = choose|j: int| 0 <= j < v@.len() && #[trigger] v@[j]@ == m;
                    if j < before.len() {
                        assert(before[j]@ == m);
                    } else {
                        assert(p[i as int]@ == m);
                    }
                }
                if set_has(p, m) {
                    let j = choose|j: int| 0 <= j < p.len() && #[trigger] p[j]@ == m;
                    if j < i {
                        assert(more@.subrange(0, i as int)[j]@ == m);
                    } else {
                        assert(v@[before.len() as int]@ == m);
                    }
                }
                if set_has(before, m) {
                    let j = choose|j: int| 0 <= j < before.len() && #[trigger] before[j]@ == m;
                    assert(v@[j]@ == m);
                }
                if set_has(more@.subrange(0, i as int), m) {
                    let j = choose|j: int| 0 <= j < i && #[trigger] more@.subrange(0, i as int)[j]@ == m;
                    assert(p[j]@ == m);
                }
            };
        }
        i = i + 1;
    }
    proof {
        assert(more@.subrange(0, more@.len() as int) =~= more@);
    }
}

/// Merges the members of an entity declaration into the table.
fn merge_entity(entities: &mut Vec<EntityEntry>, name: &String, members: &Vec<String>)
    requires
        strictly_sorted(old(entities)@),
    ensures
        strictly_sorted(final(entities)@),
        forall|t: Seq<char>| has_key(final(entities)@, t) <==> (has_key(old(entities)@, t) || t == name@),
        forall|j: int| 0 <= j < final(entities)@.len() && (#[trigger] final(entities)@[j]).name@ != name@ ==> old(entities)@.contains(final(entities)@[j]),
        forall|j: int, m: Seq<char>|
            #![trigger set_has(final(entities)@[j].members@, m)]
            0 <= j < final(entities)@.len() && final(entities)@[j].name@ == name@ ==> (set_has(final(entities)@[j].members@, m) <==> (set_has(members@, m) || exists|q: int| 0 <= q < old(entities)@.len() && old(entities)@[q].name@ == name@ && set_has(old(entities)@[q].members@, m))),
{
    let ghost e0 = entities@;
    let existing = crate::keyed::find_key(entities, name.as_str());
    let empty: Vec<String> = Vec::new();
    let merged = match existing {
        Some(j) => union_members(&entities[j].members, members),
        None => union_members(&empty, members),
    };
    let ghost base: Seq<String> = match existing {
        Some(j) => e0[j as int].members@,
        None => empty@,
    };
    proof {
        assert forall|m: Seq<char>| set_has(merged@, m) <==> (set_has(base, m) || set_has(members@, m)) by {};
    }
    let entry = EntityEntry { name: name.clone(), members: merged };
    proof {
        assert forall|m: Seq<char>| set_has(entry.members@, m) <==> (set_has(members@, m) || exists|q: int| 0 <= q < e0.len() && e0[q].name@ == name@ && set_has(e0[q].members@, m)) by {
            if exists|q: int| 0 <= q < e0.len() && e0[q].name@ == name@ && set_has(e0[q].members@, m) {
                let q = choose|q: int| 0 <= q < e0.len() && e0[q].name@ == name@ && set_has(e0[q].members@, m);
                match existing {
                    Some(p) => {
                        if p as int != q {
                            if (p as int) < q {
                                assert(seq_lt(e0[p as int].key(), e0[q].key()));
                            } else {
                                assert(seq_lt(e0[q].key(), e0[p as int].key()));
                            }
                            lemma_lt_irreflexive(name@);
                        }
                    },
                    None => {
                        assert(e0[q].key() == name@);
                        assert(has_key(e0, name@));
                    },
                }
            }
            if set_has(base, m) {
                match existing {
                    Some(p) => {
                        assert(e0[p as int].name@ == name@ && set_has(e0[p as int].members@, m));
                    },
                    None => {},
                }
            }
        };
    }
    upsert(entities, entry);
    proof {
        assert forall|j: int, m: Seq<char>|
            #![trigger set_has(entities@[j].members@, m)]
            0 <= j < entities@.len() && entities@[j].name@ == name@ implies (set_has(entities@[j].members@, m) <==> (set_has(members@, m) || exists|q: int| 0 <= q < e0.len() && e0[q].name@ == name@ && set_has(e0[q].members@, m))) by {
            let en = entities@[j];
            assert(entities@.contains(entry));
            let r = choose|r: int| 0 <= r < entities@.len() && entities@[r] == entry;
            if r != j {
                if r < j {
                    assert(seq_lt(entities@[r].key(), entities@[j].key()));
                } else {
                    assert(seq_lt(entities@[j].key(), entities@[r].key()));
                }
                lemma_lt_irreflexive(name@);
            }
        };
        assert forall|j: int| 0 <= j < entities@.len() && (#[trigger] entities@[j]).name@ != name@ implies e0.contains(entities@[j]) by {
            assert(entities@.contains(entities@[j]));
        };
    }
}

/// Builds the lookup tables of a declaration list.
pub fn vocabulary(decls: &Vec<Decl>) -> (v: Vocabulary)
    ensures
        vocabulary_of(v, decl_views(decls@)),
{
    let mut bools: Vec<String> = Vec::new();
    let mut entities: Vec<EntityEntry> = Vec::new();
    let mut relations: Vec<(String, Vec<String>)> = Vec::new();
    let mut i: usize = 0;
    while i < decls.len()
        invariant
            i <= decls@.len(),
            vocabulary_of(Vocabulary { bools, entities, relations }, decl_views(decls@).subrange(0, i as int)),
        decreases decls.len() - i,
    {
        let ghost d0 = decl_views(decls@).subrange(0, i as int);
        let ghost d1 = decl_views(decls@).subrange(0, i + 1);
        proof {
            assert(d1.drop_last() =~= d0);
            assert(d1.last() == decls@[i as int]@);
            assert forall|k: int| 0 <= k < d0.len() implies d1[k] == #[trigger] d0[k] by {}
        }
        match &decls[i] {
            Decl::Bool(n) => {
                let ghost b0 = bools@;
                bools.push(n.clone());
                proof {
                    assert forall|x: Seq<char>| rel_lookup(relations@, x) == relation_sig(d1, x) by {
                        assert(relation_sig(d1, x) == relation_sig(d0, x));
                    };
                    assert forall|x: Seq<char>| set_has(bools@, x) <==> is_bool(d1, x) by {
                        if set_has(bools@, x) {
                            let j = choose|j: int| 0 <= j < bools@.len() && #[trigger] bools@[j]@ == x;
                            if j < b0.len() {
                                assert(b0[j]@ == x);
                                assert(set_has(b0, x));
                                assert(is_bool(d0, x));
                                let k = choose|k: int| 0 <= k < d0.len() && #[trigger] d0[k] == SDecl::Bool(x);
                                assert(d1[k] == SDecl::Bool(x));
                            } else {
                                assert(d1[i as int] == SDecl::Bool(x));
                            }
                        }
                        if is_bool(d1, x) {
                            let k = choose|k: int| 0 <= k < d1.len() && #[trigger] d1[k] == SDecl::Bool(x);
                            if k < i {
                                assert(d0[k] == SDecl::Bool(x));
                                assert(is_bool(d0, x));
                                assert(set_has(b0, x));
                                let j = choose|j: int| 0 <= j < b0.len() && #[trigger] b0[j]@ == x;
                                assert(bools@[j]@ == x);
                            } else {
                                assert(bools@[b0.len() as int]@ == x);
                            }
                        }
                    };
                    assert forall|t: Seq<char>| is_entity(d1, t) <==> is_entity(d0, t) by {
                        if is_entity(d1, t) {
                            let k = choose|k: int| 0 <= k < d1.len() && decl_is_entity(#[trigger] d1[k], t);
                            assert(k < i);
                            assert(decl_is_entity(d0[k], t));
                        }
                        if is_entity(d0, t) {
                            let k = choose|k: int| 0 <= k < d0.len() && decl_is_entity(#[trigger] d0[k], t);
                            assert(decl_is_entity(d1[k], t));
                        }
                    };
                    assert forall|t: Seq<char>, m: Seq<char>| is_member(d1, t, m) <==> is_member(d0, t, m) by {
                        if is_member(d1, t, m) {
                            let k = choose|k: int| 0 <= k < d1.len() && decl_has_member(#[trigger] d1[k], t, m);
                            assert(k < i);
                            assert(decl_has_member(d0[k], t, m));
                        }
                        if is_member(d0, t, m) {
                            let k = choose|k: int| 0 <= k < d0.len() && decl_has_member(#[trigger] d0[k], t, m);
                            assert(decl_has_member(d1[k], t, m));
                        }
                    };
                }
            },
            Decl::EntityType { name, members } => {
                let ghost e0 = entities@;
                merge_entity(&mut entities, name, members);
                proof {
                    assert forall|x: Seq<char>| rel_lookup(relations@, x) == relation_sig(d1, x) by {
                        assert(relation_sig(d1, x) == relation_sig(d0, x));
                    };
                    assert forall|x: Seq<char>| is_bool(d1, x) <==> is_bool(d0, x) by {
                        if is_bool(d1, x) {
                            let k = choose|k: int| 0 <= k < d1.len() && #[trigger] d1[k] == SDecl::Bool(x);
                            assert(k < i);
                            assert(d0[k] == SDecl::Bool(x));
                        }
                        if is_bool(d0, x) {
                            let k = choose|k: int| 0 <= k < d0.len() && #[trigger] d0[k] == SDecl::Bool(x);
                            assert(d1[k] == SDecl::Bool(x));
                        }
                    };
                    assert forall|t: Seq<char>| has_key(entities@, t) <==> is_entity(d1, t) by {
                        if is_entity(d1, t) {
                            let k = choose|k: int| 0 <= k < d1.len() && decl_is_entity(#[trigger] d1[k], t);
                            if k < i {
                                assert(decl_is_entity(d0[k], t));
                                assert(is_entity(d0, t));
                                assert(has_key(e0, t));
                            }
                        }
                        if has_key(entities@, t) && t != name@ {
                            assert(has_key(e0, t));
                            assert(is_entity(d0, t));
                            let k = choose|k: int| 0 <= k < d0.len() && decl_is_entity(#[trigger] d0[k], t);
                            assert(decl_is_entity(d1[k], t));
                        }
                        if t == name@ {
                            assert(decl_is_entity(d1[i as int], t));
                        }
                    };
                    assert forall|j: int, m: Seq<char>|
                        #![trigger set_has(entities@[j].members@, m)]
                        #![trigger is_member(d1, entities@[j].name@, m)]
                        0 <= j < entities@.len() implies (set_has(entities@[j].members@, m)
                            <==> is_member(d1, entities@[j].name@, m)) by {
                        let en = entities@[j];
                        let t = en.name@;
                        if t == name@ {
                            if exists|q: int| 0 <= q < e0.len() && e0[q].name@ == t {
                                let q = choose|q: int| 0 <= q < e0.len() && e0[q].name@ == t;
                                assert(set_has(e0[q].members@, m) <==> is_member(d0, t, m));
                                assert(set_has(en.members@, m) <==> (set_has(members@, m) || set_has(e0[q].members@, m))) by {
                                    if exists|q2: int| 0 <= q2 < e0.len() && e0[q2].name@ == t && set_has(e0[q2].members@, m) {
                                        let q2 = choose|q2: int| 0 <= q2 < e0.len() && e0[q2].name@ == t && set_has(e0[q2].members@, m);
                                        if q2 != q {
                                            if q2 < q {
                                                assert(seq_lt(e0[q2].key(), e0[q].key()));
                                            } else {
                                                assert(seq_lt(e0[q].key(), e0[q2].key()));
                                            }
                                            lemma_lt_irreflexive(t);
                                        }
                                    }
                                };
                            } else {
                                assert(!has_key(e0, t));
                                assert(!is_entity(d0, t));
                                if is_member(d0, t, m) {
                                    lemma_member_implies_entity(d0, t, m);
                                }
                                assert(set_has(en.members@, m) <==> set_has(members@, m));
                            }
                            if is_member(d1, t, m) {
                                let k = choose|k: int| 0 <= k < d1.len() && decl_has_member(#[trigger] d1[k], t, m);
                                if k < i {
                                    assert(decl_has_member(d0[k], t, m));
                                } else {
                                    let p = choose|p: int| 0 <= p < strs(members@).len() && strs(members@)[p] == m;
                                    assert(members@[p]@ == m);
                                }
                            }
                            if is_member(d0, t, m) {
                                let k = choose|k: int| 0 <= k < d0.len() && decl_has_member(#[trigger] d0[k], t, m);
                                assert(decl_has_member(d1[k], t, m));
                            }
                            if set_has(members@, m) {
                                let p = choose|p: int| 0 <= p < members@.len() && #[trigger] members@[p]@ == m;
                                assert(strs(members@)[p] == m);
                                assert(decl_has_member(d1[i as int], t, m));
                            }
                        } else {
                            assert(e0.contains(en));
                            let q = choose|q: int| 0 <= q < e0.len() && e0[q] == en;
                            assert(e0[q].name@ == t);
                            assert(set_has(en.members@, m) <==> is_member(d0, t, m));
                            if is_member(d1, t, m) {
                                let k = choose|k: int| 0 <= k < d1.len() && decl_has_member(#[trigger] d1[k], t, m);
                                assert(k < i);
                                assert(decl_has_member(d0[k], t, m));
                            }
                            if is_member(d0, t, m) {
                                let k = choose|k: int| 0 <= k < d0.len() && decl_has_member(#[trigger] d0[k], t, m);
                                assert(decl_has_member(d1[k], t, m));
                            }
                        }
                    };
                }
            },
            Decl::Relation { name, args } => {
                let ghost r0 = relations@;
                relations.push((name.clone(), crate::project::clone_strings(args)));
                proof {
                    assert(relations@.drop_last() =~= r0);
                    assert forall|x: Seq<char>| rel_lookup(relations@, x) == relation_sig(d1, x) by {
                        if x == name@ {
                            assert(rel_lookup(relations@, x) == Some(strs(args@)));
                        } else {
                            assert(rel_lookup(relations@, x) == rel_lookup(r0, x));
                            assert(relation_sig(d1, x) == relation_sig(d0, x));
                        }
                    };
                    assert forall|x: Seq<char>| is_bool(d1, x) <==> is_bool(d0, x) by {
                        if is_bool(d1, x) {
                            let k = choose|k: int| 0 <= k < d1.len() && #[trigger] d1[k] == SDecl::Bool(x);
                            assert(k < i);
                            assert(d0[k] == SDecl::Bool(x));
                        }
                        if is_bool(d0, x) {
                            let k = choose|k: int| 0 <= k < d0.len() && #[trigger] d0[k] == SDecl::Bool(x);
                            assert(d1[k] == SDecl::Bool(x));
                        }
                    };
                    assert forall|t: Seq<char>| is_entity(d1, t) <==> is_entity(d0, t) by {
                        if is_entity(d1, t) {
                            let k = choose|k: int| 0 <= k < d1.len() && decl_is_entity(#[trigger] d1[k], t);
                            assert(k < i);
                            assert(decl_is_entity(d0[k], t));
                        }
                        if is_entity(d0, t) {
                            let k = choose|k: int| 0 <= k < d0.len() && decl_is_entity(#[trigger] d0[k], t);
                            assert(decl_is_entity(d1[k], t));
                        }
                    };
                    assert forall|t: Seq<char>, m: Seq<char>| is_member(d1, t, m) <==> is_member(d0, t, m) by {
                        if is_member(d1, t, m) {
                            let k = choose|k: int| 0 <= k < d1.len() && decl_has_member(#[trigger] d1[k], t, m);
                            assert(k < i);
                            assert(decl_has_member(d0[k], t, m));
                        }
                        if is_member(d0, t, m) {
                            let k = choose|k: int| 0 <= k < d0.len() && decl_has_member(#[trigger] d0[k], t, m);
                            assert(decl_has_member(d1[k], t, m));
                        }
                    };
                }
            },
        }
        i = i + 1;
    }
    proof {
        assert(decl_views(decls@).subrange(0, decls@.len() as int) =~= decl_views(decls@));
    }
    Vocabulary { bools, entities, relations }
}


// ---------------------------------------------------------------------------
// Binding environments
// ---------------------------------------------------------------------------

/// The map denoted by a binding list: later bindings of a name shadow earlier ones.
pub open spec fn env_map(s: Seq<(String, String)>) -> Map<Seq<char>, Seq<char>>
    decreases s.len(),
{
    if s.len() == 0 {
        Map::empty()
    } else {
        env_map(s.drop_last()).insert(s.last().0@, s.last().1@)
    }
}

proof fn lemma_env_prefix(s: Seq<(String, String)>, i: int)
    requires
        0 <= i < s.len(),
    ensures
        env_map(s.take(i + 1)) == env_map(s.take(i)).insert(s[i].0@, s[i].1@),
{
    assert(s.take(i + 1).drop_last() =~= s.take(i));
}

/// The type bound to `k`, if any.
fn env_get(env: &Vec<(String, String)>, k: &str) -> (r: Option<String>)
    ensures
        r matches Some(t) ==> env_map(env@).contains_key(k@) && env_map(env@)[k@] == t@,
        r is None ==> !env_map(env@).contains_key(k@),
{
    let mut found: Option<usize> = None;
    let mut i: usize = 0;
    while i < env.len()
        invariant
            i <= env@.len(),
            found matches Some(j) ==> j < i && env_map(env@.take(i as int)).contains_key(k@)
                && env_map(env@.take(i as int))[k@] == env@[j as int].1@,
            found is None ==> !env_map(env@.take(i as int)).contains_key(k@),
        decreases env.len() - i,
    {
        proof {
            lemma_env_prefix(env@, i as int);
        }
        if str_eq(env[i].0.as_str(), k) {
            found = Some(i);
        }
        i = i + 1;
    }
    proof {
        assert(env@.take(env@.len() as int) =~= env@);
    }
    match found {
        Some(j) => Some(env[j].1.clone()),
        None => None,
    }
}

/// Binds `k` to `t`.
fn env_bind(env: &mut Vec<(String, String)>, k: &String, t: &String)
    ensures
        env_map(final(env)@) == env_map(old(env)@).insert(k@, t@),
{
    let ghost e0 = env@;
    env.push((k.clone(), t.clone()));
    proof {
        assert(env@.drop_last() =~= e0);
    }
}

/// Removes every binding of `k`.
fn env_unbind(env: &mut Vec<(String, String)>, k: &String)
    ensures
        env_map(final(env)@) == env_map(old(env)@).remove(k@),
{
    let mut out: Vec<(String, String)> = Vec::new();
    let mut i: usize = 0;
    while i < env.len()
        invariant
            i <= env@.len(),
            env_map(out@) == env_map(env@.take(i as int)).remove(k@),
        decreases env.len() - i,
    {
        proof {
            lemma_env_prefix(env@, i as int);
        }
        if !str_eq(env[i].0.as_str(), k.as_str()) {
            let ghost o0 = out@;
            out.push((env[i].0.clone(), env[i].1.clone()));
            proof {
                assert(out@.drop_last() =~= o0);
                assert(env_map(out@) =~= env_map(env@.take(i + 1)).remove(k@));
            }
        } else {
            proof {
                assert(env_map(out@) =~= env_map(env@.take(i + 1)).remove(k@));
            }
        }
        i = i + 1;
    }
    proof {
        assert(env@.take(env@.len() as int) =~= env@);
    }
    *env = out;
}

// ---------------------------------------------------------------------------
// Lookups against the vocabulary
// ---------------------------------------------------------------------------

proof fn lemma_le_antisymmetric(a: Seq<char>, b: Seq<char>)
    requires
        seq_le(a, b),
        seq_le(b, a),
    ensures
        a == b,
{
    if a != b {
        lemma_lt_asymmetric(a, b);
    }
}

/// `m` is a member of entity type `t`.
fn member_of(v: &Vocabulary, t: &str, m: &str, Ghost(d): Ghost<Seq<SDecl>>) -> (r: bool)
    requires
        vocabulary_of(*v, d),
    ensures
        r == is_member(d, t@, m@),
{
    match crate::keyed::find_key(&v.entities, t) {
        Some(j) => {
            let r = contains_str(&v.entities[j].members, m);
            proof {
                assert(set_has(v.entities@[j as int].members@, m@) <==> is_member(d, v.entities@[j as int].name@, m@));
            }
            r
        },
        None => {
            proof {
                if is_member(d, t@, m@) {
                    lemma_member_implies_entity(d, t@, m@);
                }
            }
            false
        },
    }
}

/// The entity type of a constant: the first entity type (by name) that lists it.
fn entity_type_exec(v: &Vocabulary, a: &str, Ghost(d): Ghost<Seq<SDecl>>) -> (r: Option<String>)
    requires
        vocabulary_of(*v, d),
    ensures
        r matches Some(t) ==> entity_type_of(d, a@) == Some(t@),
        r is None ==> entity_type_of(d, a@) is None,
{
    let mut i: usize = 0;
    while i < v.entities.len()
        invariant
            vocabulary_of(*v, d),
            i <= v.entities@.len(),
            forall|j: int| 0 <= j < i ==> !is_member(d, #[trigger] v.entities@[j].name@, a@),
        decreases v.entities.len() - i,
    {
        if contains_str(&v.entities[i].members, a) {
            let t = v.entities[i].name.clone();
            proof {
                let ents = v.entities@;
                assert(set_has(ents[i as int].members@, a@) <==> is_member(d, ents[i as int].name@, a@));
                assert forall|u: Seq<char>| is_member(d, u, a@) implies seq_le(t@, u) by {
                    lemma_member_implies_entity(d, u, a@);
                    assert(has_key(ents, u));
                    let q = choose|q: int| 0 <= q < ents.len() && #[trigger] ents[q].key() == u;
                    if q < i {
                        assert(!is_member(d, ents[q].name@, a@));
                    } else if q > i {
                        assert(seq_lt(ents[i as int].key(), ents[q].key()));
                    }
                };
                let c = choose|c: Seq<char>|
                    is_member(d, c, a@) && forall|u: Seq<char>| is_member(d, u, a@) ==> seq_le(c, u);
                assert(is_member(d, c, a@) && forall|u: Seq<char>| is_member(d, u, a@) ==> seq_le(c, u));
                lemma_le_antisymmetric(c, t@);
            }
            return Some(t);
        }
        proof {
            let ents = v.entities@;
            assert(set_has(ents[i as int].members@, a@) <==> is_member(d, ents[i as int].name@, a@));
        }
        i = i + 1;
    }
    proof {
        let ents = v.entities@;
        assert forall|u: Seq<char>| !is_member(d, u, a@) by {
            if is_member(d, u, a@) {
                lemma_member_implies_entity(d, u, a@);
                assert(has_key(ents, u));
                let q = choose|q: int| 0 <= q < ents.len() && #[trigger] ents[q].key() == u;
                assert(!is_member(d, ents[q].name@, a@));
            }
        };
    }
    None
}

/// The type of a term under a binding environment.
fn term_type_exec(v: &Vocabulary, env: &Vec<(String, String)>, a: &str, Ghost(d): Ghost<Seq<SDecl>>) -> (r: Option<String>)
    requires
        vocabulary_of(*v, d),
    ensures
        r matches Some(t) ==> term_type(d, env_map(env@), a@) == Some(t@),
        r is None ==> term_type(d, env_map(env@), a@) is None,
{
    match env_get(env, a) {
        Some(t) => Some(t),
        None => entity_type_exec(v, a, Ghost(d)),
    }
}

/// Argument types of relation `n` (the last declaration wins).
fn relation_exec<'a>(v: &'a Vocabulary, n: &str, Ghost(d): Ghost<Seq<SDecl>>) -> (r: Option<&'a Vec<String>>)
    requires
        vocabulary_of(*v, d),
    ensures
        r matches Some(a) ==> relation_sig(d, n@) == Some(strs(a@)),
        r is None ==> relation_sig(d, n@) is None,
{
    let mut found: Option<usize> = None;
    let mut i: usize = 0;
    let rels = &v.relations;
    while i < rels.len()
        invariant
            i <= rels@.len(),
            found matches Some(j) ==> j < i && rel_lookup(rels@.take(i as int), n@) == Some(strs(rels@[j as int].1@)),
            found is None ==> rel_lookup(rels@.take(i as int), n@) is None,
        decreases rels.len() - i,
    {
        proof {
            assert(rels@.take(i + 1).drop_last() =~= rels@.take(i as int));
        }
        if str_eq(rels[i].0.as_str(), n) {
            found = Some(i);
        }
        i = i + 1;
    }
    proof {
        assert(rels@.take(rels@.len() as int) =~= rels@);
        assert(rel_lookup(v.relations@, n@) == relation_sig(d, n@));
    }
    match found {
        Some(j) => Some(&rels[j].1),
        None => None,
    }
}


// ---------------------------------------------------------------------------
// Checking expressions and clauses
// ---------------------------------------------------------------------------

fn quoted(a: &str) -> (r: String)
    ensures
        r@ == seq!['`'] + a@ + seq!['`'],
{
    let r = cat3("`", a, "`");
    proof {
        reveal_strlit("`");
    }
    r
}

/// Checks `e` against the vocabulary, updating the binding environment as the
/// checker walks it; the error carries the first violation found.
fn check_expr(e: &Expr, v: &Vocabulary, env: &mut Vec<(String, String)>, Ghost(d): Ghost<Seq<SDecl>>) -> (r: Result<(), String>)
    requires
        vocabulary_of(*v, d),
    ensures
        r is Ok == check(d, e@, env_map(old(env)@)).0,
        env_map(final(env)@) == check(d, e@, env_map(old(env)@)).1,
    decreases e,
{
    match e {
        Expr::Bool(_) => Ok(()),
        Expr::Name(n) => {
            if contains_str(&v.bools, n.as_str()) {
                Ok(())
            } else {
                let q = quoted(n.as_str());
                Err(cat(q.as_str(), " is not a Bool"))
            }
        },
        Expr::Call(n, args) => {
            match relation_exec(v, n.as_str(), Ghost(d)) {
                None => {
                    let q = quoted(n.as_str());
                    Err(cat("unknown relation ", q.as_str()))
                },
                Some(sig) => {
                    if sig.len() != args.len() {
                        let q = quoted(n.as_str());
                        let k = decimal_string(sig.len() as u64);
                        let head = cat3("relation ", q.as_str(), " expects ");
                        return Err(cat3(head.as_str(), k.as_str(), " arguments"));
                    }
                    let mut i: usize = 0;
                    while i < args.len()
                        invariant
                            vocabulary_of(*v, d),
                            i <= args@.len(),
                            sig@.len() == args@.len(),
                            relation_sig(d, n@) == Some(strs(sig@)),
                            env@ == old(env)@,
                            e@ == SExpr::Call(n@, strs(args@)),
                            forall|j: int| 0 <= j < i ==> arg_ok(d, env_map(env@), #[trigger] strs(args@)[j], strs(sig@)[j]),
                        decreases args.len() - i,
                    {
                        let a = &args[i];
                        let t = &sig[i];
                        let bound = env_get(env, a.as_str());
                        let by_env = match &bound {
                            Some(x) => str_eq(x.as_str(), t.as_str()),
                            None => false,
                        };
                        let ok = by_env || member_of(v, t.as_str(), a.as_str(), Ghost(d));
                        proof {
                            assert(strs(args@)[i as int] == a@);
                            assert(strs(sig@)[i as int] == t@);
                        }
                        if !ok {
                            let qa = quoted(a.as_str());
                            let qt = quoted(t.as_str());
                            let head = cat3("argument ", qa.as_str(), " does not have type ");
                            return Err(cat(head.as_str(), qt.as_str()));
                        }
                        i = i + 1;
                    }
                    Ok(())
                },
            }
        },
        Expr::Eq(a, b) | Expr::Ne(a, b) => {
            let ta = term_type_exec(v, env, a.as_str(), Ghost(d));
            let tb = term_type_exec(v, env, b.as_str(), Ghost(d));
            let same = match (&ta, &tb) {
                (Some(x), Some(y)) => str_eq(x.as_str(), y.as_str()),
                _ => false,
            };
            if same {
                Ok(())
            } else {
                let qa = quoted(a.as_str());
                let qb = quoted(b.as_str());
                let head = cat3("cannot compare ", qa.as_str(), " and ");
                Err(cat3(head.as_str(), qb.as_str(), ": incompatible entity types"))
            }
        },
        Expr::Not(x) => check_expr(x, v, env, Ghost(d)),
        Expr::And(a, b) | Expr::Or(a, b) | Expr::Implies(a, b) => {
            check_expr(a, v, env, Ghost(d))?;
            check_expr(b, v, env, Ghost(d))
        },
        Expr::Forall { var, ty, guard, body } | Expr::Exists { var, ty, guard, body } => {
            if crate::keyed::find_key(&v.entities, ty.as_str()).is_none() {
                let q = quoted(ty.as_str());
                return Err(cat("unknown finite entity type ", q.as_str()));
            }
            env_bind(env, var, ty);
            match guard {
                Some(g) => {
                    check_expr(g, v, env, Ghost(d))?;
                },
                None => {},
            }
            let r = check_expr(body, v, env, Ghost(d));
            env_unbind(env, var);
            r
        },
    }
}

/// Every clause of `clauses` is well typed against `d`, with no bindings to start from.
pub open spec fn clauses_typed(d: Seq<SDecl>, clauses: Seq<Clause>) -> bool {
    forall|i: int| 0 <= i < clauses.len() ==> check(d, #[trigger] clauses[i].expression@, Map::empty()).0
}

/// Type checks every clause against the declarations; the first ill-typed clause
/// is reported at its source position.
pub fn typecheck(declarations: &Vec<Decl>, clauses: &Vec<Clause>) -> (r: Result<(), Error>)
    ensures
        r is Ok <==> clauses_typed(decl_views(declarations@), clauses@),
        r matches Err(e) ==> exists|i: int|
            #![trigger clauses@[i]]
            {
                &&& 0 <= i < clauses@.len()
                &&& !check(decl_views(declarations@), clauses@[i].expression@, Map::empty()).0
                &&& clauses_typed(decl_views(declarations@), clauses@.take(i))
                &&& e matches Error::Diagnostic { path, line, column, .. }
                &&& path@ == clauses@[i].span.filename@
                &&& line == clauses@[i].span.line
                &&& column == clauses@[i].span.column
            },
{
    let v = vocabulary(declarations);
    let ghost d = decl_views(declarations@);
    let mut i: usize = 0;
    while i < clauses.len()
        invariant
            vocabulary_of(v, d),
            d == decl_views(declarations@),
            i <= clauses@.len(),
            clauses_typed(d, clauses@.take(i as int)),
        decreases clauses.len() - i,
    {
        let c = &clauses[i];
        let mut env: Vec<(String, String)> = Vec::new();
        proof {
            assert(env_map(env@) =~= Map::<Seq<char>, Seq<char>>::empty());
        }
        match check_expr(&c.expression, &v, &mut env, Ghost(d)) {
            Ok(()) => {},
            Err(m) => {
                proof {
                    assert(clauses@[i as int] == *c);
                }
                return Err(crate::adr::diag(c.span.filename.as_str(), c.span.line, c.span.column, m.as_str()));
            },
        }
        proof {
            assert forall|j: int| 0 <= j < i + 1 implies check(d, #[trigger] clauses@.take(i + 1)[j].expression@, Map::empty()).0 by {
                if j < i {
                    assert(clauses@.take(i + 1)[j] == clauses@.take(i as int)[j]);
                }
            };
        }
        i = i + 1;
    }
    proof {
        assert(clauses@.take(clauses@.len() as int) =~= clauses@);
    }
    Ok(())
}

} // verus!
