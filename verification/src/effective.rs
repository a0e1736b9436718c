//! The effective specification: the ADRs that are in force, their declarations and
//! their clauses in a canonical order, type checked.
use vstd::prelude::*;
use crate::adr::{Adr, Clause, Decl, Error, SClause, SDecl, Status, decl_views};
use crate::keyed::{contains_str, set_has};
use crate::sorting::{Ordered, sort_stable, sorted_le};
use crate::text::{seq_lt, str_eq, str_lt, lemma_lt_asymmetric, lemma_lt_irreflexive, lemma_lt_total, lemma_lt_transitive};
use crate::typecheck::{check, typecheck, clauses_typed};

verus! {

/// The ADRs in force, with their declarations and clauses.
#[derive(Debug)]
pub struct EffectiveSpecification {
    pub clauses: Vec<Clause>,
    pub declarations: Vec<Decl>,
    pub active_adrs: Vec<String>,
}

// ---------------------------------------------------------------------------
// What the effective specification is
// ---------------------------------------------------------------------------

/// Every ADR an ADR points at: what it supersedes, amends and is an exception to.
pub open spec fn refs(a: Adr) -> Seq<String> {
    a.supersedes@ + a.amends@ + a.exception_to@
}

pub open spec fn known_id(adrs: Seq<Adr>, r: Seq<char>) -> bool {
    exists|i: int| 0 <= i < adrs.len() && #[trigger] adrs[i].id@ == r
}

pub open spec fn refs_resolved(adrs: Seq<Adr>, i: int) -> bool {
    forall|k: int| 0 <= k < refs(adrs[i]).len() ==> known_id(adrs, #[trigger] refs(adrs[i])[k]@)
}

/// Every reference names an ADR of the set.
pub open spec fn all_refs_resolved(adrs: Seq<Adr>) -> bool {
    forall|i: int| 0 <= i < adrs.len() ==> #[trigger] refs_resolved(adrs, i)
}

/// An accepted ADR supersedes `x`.
pub open spec fn superseded(adrs: Seq<Adr>, x: Seq<char>) -> bool {
    exists|i: int| 0 <= i < adrs.len() && adrs[i].status == Status::Accepted && #[trigger] set_has(adrs[i].supersedes@, x)
}

/// ADR `i` is in force: not superseded by an accepted ADR, and accepted (or proposed,
/// when proposals are included).
pub open spec fn is_active(adrs: Seq<Adr>, include_proposed: bool, i: int) -> bool {
    &&& !superseded(adrs, adrs[i].id@)
    &&& (adrs[i].status == Status::Accepted || (include_proposed && adrs[i].status == Status::Proposed))
}

/// ADR `i` comes before ADR `j`: by identifier, ties kept in input order.
pub open spec fn rank_lt(adrs: Seq<Adr>, i: int, j: int) -> bool {
    seq_lt(adrs[i].id@, adrs[j].id@) || (adrs[i].id@ == adrs[j].id@ && i < j)
}

/// `o` lists exactly the ADRs in force, in rank order.
pub open spec fn is_activation_order(adrs: Seq<Adr>, include_proposed: bool, o: Seq<int>) -> bool {
    &&& forall|k: int| 0 <= k < o.len() ==> 0 <= #[trigger] o[k] < adrs.len() && is_active(adrs, include_proposed, o[k])
    &&& forall|i: int| 0 <= i < adrs.len() && is_active(adrs, include_proposed, i) ==> #[trigger] o.contains(i)
    &&& forall|k: int, l: int| #![trigger o[k], o[l]] 0 <= k < l < o.len() ==> rank_lt(adrs, o[k], o[l])
}

pub open spec fn clause_views(s: Seq<Clause>) -> Seq<SClause> {
    s.map_values(|c: Clause| c@)
}

/// The declarations of the ADRs along `o`, in that order.
pub open spec fn gathered_decls(adrs: Seq<Adr>, o: Seq<int>) -> Seq<SDecl>
    decreases o.len(),
{
    if o.len() == 0 {
        Seq::empty()
    } else {
        gathered_decls(adrs, o.drop_last()) + decl_views(adrs[o.last()].declarations@)
    }
}

/// The clauses of the ADRs along `o`, in that order.
pub open spec fn gathered_clauses(adrs: Seq<Adr>, o: Seq<int>) -> Seq<SClause>
    decreases o.len(),
{
    if o.len() == 0 {
        Seq::empty()
    } else {
        gathered_clauses(adrs, o.drop_last()) + clause_views(adrs[o.last()].clauses@)
    }
}

/// Canonical clause order: by ADR, clause identifier, file, line and column.
pub open spec fn clause_le(a: SClause, b: SClause) -> bool {
    if a.adr_id != b.adr_id {
        seq_lt(a.adr_id, b.adr_id)
    } else if a.id != b.id {
        seq_lt(a.id, b.id)
    } else if a.filename != b.filename {
        seq_lt(a.filename, b.filename)
    } else if a.line != b.line {
        a.line < b.line
    } else {
        a.column <= b.column
    }
}

/// Every clause of `cs` type checks against `d`.
pub open spec fn views_typed(d: Seq<SDecl>, cs: Seq<SClause>) -> bool {
    forall|i: int| 0 <= i < cs.len() ==> check(d, #[trigger] cs[i].expression, Map::empty()).0
}

/// `s` is the effective specification of `adrs`.
pub open spec fn effective_of(adrs: Seq<Adr>, include_proposed: bool, s: EffectiveSpecification) -> bool {
    exists|o: Seq<int>, g: Seq<Clause>| {
        &&& is_activation_order(adrs, include_proposed, o)
        &&& s.active_adrs@.len() == o.len()
        &&& forall|k: int| 0 <= k < o.len() ==> (#[trigger] s.active_adrs@[k])@ == adrs[o[k]].id@
        &&& decl_views(s.declarations@) == gathered_decls(adrs, o)
        &&& clause_views(g) == gathered_clauses(adrs, o)
        &&& s.clauses@.to_multiset() == g.to_multiset()
        &&& forall|i: int, j: int| #![trigger s.clauses@[i], s.clauses@[j]] 0 <= i < j < s.clauses@.len()
            ==> clause_le(s.clauses@[i]@, s.clauses@[j]@)
        &&& views_typed(gathered_decls(adrs, o), gathered_clauses(adrs, o))
    }
}

// ---------------------------------------------------------------------------
// Orders used for sorting
// ---------------------------------------------------------------------------

struct Ranked {
    id: String,
    index: usize,
}

impl Ordered for Ranked {
    closed spec fn le(&self, other: &Self) -> bool {
        seq_lt(self.id@, other.id@) || (self.id@ == other.id@ && self.index <= other.index)
    }

    proof fn lemma_le_total(a: &Self, b: &Self) {
        lemma_lt_total(a.id@, b.id@);
    }

    proof fn lemma_le_transitive(a: &Self, b: &Self, c: &Self) {
        if seq_lt(a.id@, b.id@) && seq_lt(b.id@, c.id@) {
            lemma_lt_transitive(a.id@, b.id@, c.id@);
        }
    }

    fn le_exec(&self, other: &Self) -> (r: bool) {
        str_lt(self.id.as_str(), other.id.as_str()) || (str_eq(self.id.as_str(), other.id.as_str())
            && self.index <= other.index)
    }
}

impl Ordered for Clause {
    open spec fn le(&self, other: &Self) -> bool {
        clause_le(self@, other@)
    }

    proof fn lemma_le_total(a: &Self, b: &Self) {
        lemma_lt_total(a.adr_id@, b.adr_id@);
        lemma_lt_total(a.id@, b.id@);
        lemma_lt_total(a.span.filename@, b.span.filename@);
    }

    proof fn lemma_le_transitive(a: &Self, b: &Self, c: &Self) {
        let (x, y, z) = (a@, b@, c@);
        lemma_lt_total(x.adr_id, y.adr_id);
        lemma_lt_total(y.adr_id, z.adr_id);
        lemma_lt_total(x.id, y.id);
        lemma_lt_total(y.id, z.id);
        lemma_lt_total(x.filename, y.filename);
        lemma_lt_total(y.filename, z.filename);
        if seq_lt(x.adr_id, y.adr_id) && seq_lt(y.adr_id, z.adr_id) {
            lemma_lt_transitive(x.adr_id, y.adr_id, z.adr_id);
        }
        if seq_lt(x.id, y.id) && seq_lt(y.id, z.id) {
            lemma_lt_transitive(x.id, y.id, z.id);
        }
        if seq_lt(x.filename, y.filename) && seq_lt(y.filename, z.filename) {
            lemma_lt_transitive(x.filename, y.filename, z.filename);
        }
        if x.adr_id == z.adr_id && x.adr_id != y.adr_id {
            lemma_lt_asymmetric(x.adr_id, y.adr_id);
        }
        if x.adr_id == y.adr_id && y.adr_id == z.adr_id && x.id == z.id && x.id != y.id {
            lemma_lt_asymmetric(x.id, y.id);
        }
        if x.adr_id == y.adr_id && y.adr_id == z.adr_id && x.id == y.id && y.id == z.id && x.filename
            == z.filename && x.filename != y.filename {
            lemma_lt_asymmetric(x.filename, y.filename);
        }
    }

    fn le_exec(&self, other: &Self) -> (r: bool) {
        if !str_eq(self.adr_id.as_str(), other.adr_id.as_str()) {
            str_lt(self.adr_id.as_str(), other.adr_id.as_str())
        } else if !str_eq(self.id.as_str(), other.id.as_str()) {
            str_lt(self.id.as_str(), other.id.as_str())
        } else if !str_eq(self.span.filename.as_str(), other.span.filename.as_str()) {
            str_lt(self.span.filename.as_str(), other.span.filename.as_str())
        } else if self.span.line != other.span.line {
            self.span.line < other.span.line
        } else {
            self.span.column <= other.span.column
        }
    }
}


// ---------------------------------------------------------------------------
// Computing it
// ---------------------------------------------------------------------------

fn adr_ids(adrs: &Vec<Adr>) -> (ids: Vec<String>)
    ensures
        forall|r: Seq<char>| #[trigger] set_has(ids@, r) <==> known_id(adrs@, r),
{
    let mut ids: Vec<String> = Vec::new();
    let mut i: usize = 0;
    while i < adrs.len()
        invariant
            i <= adrs@.len(),
            ids@.len() == i,
            forall|j: int| 0 <= j < i ==> (#[trigger] ids@[j])@ == adrs@[j].id@,
        decreases adrs.len() - i,
    {
        ids.push(adrs[i].id.clone());
        i = i + 1;
    }
    proof {
        assert forall|r: Seq<char>| #[trigger] set_has(ids@, r) <==> known_id(adrs@, r) by {
            if set_has(ids@, r) {
                let j = choose|j: int| 0 <= j < ids@.len() && #[trigger] ids@[j]@ == r;
                assert(adrs@[j].id@ == r);
            }
            if known_id(adrs@, r) {
                let j = choose|j: int| 0 <= j < adrs@.len() && #[trigger] adrs@[j].id@ == r;
                assert(ids@[j]@ == r);
            }
        };
    }
    ids
}

/// Position of the first entry of `list` that `ids` does not hold.
fn first_unknown(list: &Vec<String>, ids: &Vec<String>) -> (r: Option<usize>)
    ensures
        r matches Some(k) ==> k < list@.len() && !set_has(ids@, list@[k as int]@) && forall|j: int|
            0 <= j < k ==> set_has(ids@, #[trigger] list@[j]@),
        r is None ==> forall|j: int| 0 <= j < list@.len() ==> set_has(ids@, #[trigger] list@[j]@),
{
    let mut k: usize = 0;
    while k < list.len()
        invariant
            k <= list@.len(),
            forall|j: int| 0 <= j < k ==> set_has(ids@, #[trigger] list@[j]@),
        decreases list.len() - k,
    {
        if !contains_str(ids, list[k].as_str()) {
            return Some(k);
        }
        k = k + 1;
    }
    None
}

fn superseded_ids(adrs: &Vec<Adr>) -> (sup: Vec<String>)
    ensures
        forall|x: Seq<char>| #[trigger] set_has(sup@, x) <==> superseded(adrs@, x),
{
    let mut sup: Vec<String> = Vec::new();
    let mut i: usize = 0;
    while i < adrs.len()
        invariant
            i <= adrs@.len(),
            forall|x: Seq<char>| #[trigger] set_has(sup@, x) <==> exists|j: int|
                0 <= j < i && adrs@[j].status == Status::Accepted && #[trigger] set_has(adrs@[j].supersedes@, x),
        decreases adrs.len() - i,
    {
        if adrs[i].status == Status::Accepted {
            crate::typecheck::add_members(&mut sup, &adrs[i].supersedes);
        }
        proof {
            assert forall|x: Seq<char>| #[trigger] set_has(sup@, x) <==> exists|j: int|
                0 <= j < i + 1 && adrs@[j].status == Status::Accepted && #[trigger] set_has(adrs@[j].supersedes@, x) by {
                if exists|j: int| 0 <= j < i + 1 && adrs@[j].status == Status::Accepted && #[trigger] set_has(adrs@[j].supersedes@, x) {
                    let j = choose|j: int| 0 <= j < i + 1 && adrs@[j].status == Status::Accepted && #[trigger] set_has(adrs@[j].supersedes@, x);
                    if j < i {
                        assert(exists|j2: int| 0 <= j2 < i && adrs@[j2].status == Status::Accepted && #[trigger] set_has(adrs@[j2].supersedes@, x));
                    }
                }
            };
        }
        i = i + 1;
    }
    sup
}

fn active_flag(adr: &Adr, sup: &Vec<String>, include_proposed: bool) -> (r: bool)
    ensures
        r == (!set_has(sup@, adr.id@) && (adr.status == Status::Accepted || (include_proposed && adr.status
            == Status::Proposed))),
{
    !contains_str(sup, adr.id.as_str()) && (adr.status == Status::Accepted || (include_proposed
        && adr.status == Status::Proposed))
}

/// The ADRs in force, in rank order.
fn activation_order(adrs: &Vec<Adr>, include_proposed: bool) -> (o: Vec<usize>)
    ensures
        is_activation_order(adrs@, include_proposed, o@.map_values(|i: usize| i as int)),
{
    let sup = superseded_ids(adrs);
    let mut ranked: Vec<Ranked> = Vec::new();
    let mut i: usize = 0;
    while i < adrs.len()
        invariant
            i <= adrs@.len(),
            forall|x: Seq<char>| #[trigger] set_has(sup@, x) <==> superseded(adrs@, x),
            forall|k: int| 0 <= k < ranked@.len() ==> (#[trigger] ranked@[k]).index < i
                && ranked@[k].id@ == adrs@[ranked@[k].index as int].id@
                && is_active(adrs@, include_proposed, ranked@[k].index as int),
            forall|k: int, l: int| 0 <= k < l < ranked@.len() ==> (#[trigger] ranked@[k]).index < (#[trigger] ranked@[l]).index,
            forall|j: int| 0 <= j < i && is_active(adrs@, include_proposed, j) ==> exists|k: int|
                0 <= k < ranked@.len() && (#[trigger] ranked@[k]).index == j,
        decreases adrs.len() - i,
    {
        let ghost r0 = ranked@;
        if active_flag(&adrs[i], &sup, include_proposed) {
            ranked.push(Ranked { id: adrs[i].id.clone(), index: i });
        }
        proof {
            assert forall|j: int| 0 <= j < i + 1 && is_active(adrs@, include_proposed, j) implies exists|k: int|
                0 <= k < ranked@.len() && (#[trigger] ranked@[k]).index == j by {
                if j < i {
                    let k = choose|k: int| 0 <= k < r0.len() && (#[trigger] r0[k]).index == j;
                    assert(ranked@[k] == r0[k]);
                } else {
                    let n = ranked@.len() - 1;
                    assert(ranked@[n].index == i);
                }
            };
        }
        i = i + 1;
    }
    let ghost before = ranked@;
    proof {
        assert(before.no_duplicates()) by {
            assert forall|k: int, l: int| 0 <= k < before.len() && 0 <= l < before.len() && k != l implies before[k] != before[l] by {
                if k < l {
                    assert(before[k].index < before[l].index);
                } else {
                    assert(before[l].index < before[k].index);
                }
            };
        };
        before.lemma_multiset_has_no_duplicates();
    }
    let sorted = sort_stable(ranked);
    proof {
        broadcast use vstd::seq_lib::group_seq_properties;
        broadcast use vstd::multiset::group_multiset_axioms;
        assert forall|x: Ranked| sorted@.to_multiset().contains(x) implies sorted@.to_multiset().count(x) == 1 by {
            assert(before.to_multiset().contains(x));
        };
        sorted@.lemma_multiset_has_no_duplicates_conv();
    }
    let mut o: Vec<usize> = Vec::new();
    let mut k: usize = 0;
    while k < sorted.len()
        invariant
            k <= sorted@.len(),
            o@.len() == k,
            forall|q: int| 0 <= q < k ==> o@[q] == (#[trigger] sorted@[q]).index,
        decreases sorted.len() - k,
    {
        o.push(sorted[k].index);
        k = k + 1;
    }
    proof {
        broadcast use vstd::seq_lib::group_seq_properties;
        broadcast use vstd::multiset::group_multiset_axioms;
        let om = o@.map_values(|i: usize| i as int);
        let a = adrs@;
        assert forall|q: int| 0 <= q < sorted@.len() implies before.contains(#[trigger] sorted@[q]) by {
            assert(sorted@.contains(sorted@[q]));
            assert(sorted@.to_multiset().count(sorted@[q]) > 0);
        };
        assert forall|q: int| 0 <= q < om.len() implies 0 <= #[trigger] om[q] < a.len() && is_active(a, include_proposed, om[q]) by {
            assert(before.contains(sorted@[q]));
        };
        assert forall|j: int| 0 <= j < a.len() && is_active(a, include_proposed, j) implies #[trigger] om.contains(j) by {
            let p = choose|p: int| 0 <= p < before.len() && (#[trigger] before[p]).index == j;
            assert(before.contains(before[p]));
            assert(before.to_multiset().count(before[p]) > 0);
            assert(sorted@.contains(before[p]));
            let q = choose|q: int| 0 <= q < sorted@.len() && sorted@[q] == before[p];
            assert(om[q] == j);
        };
        assert forall|q: int, l: int| #![trigger om[q], om[l]] 0 <= q < l < om.len() implies rank_lt(a, om[q], om[l]) by {
            let x = sorted@[q];
            let y = sorted@[l];
            assert(x.le(&y));
            assert(before.contains(x));
            assert(before.contains(y));
            if x.index == y.index {
                let p1 = choose|p1: int| 0 <= p1 < before.len() && before[p1] == x;
                let p2 = choose|p2: int| 0 <= p2 < before.len() && before[p2] == y;
                if p1 < p2 {
                    assert(before[p1].index < before[p2].index);
                } else if p2 < p1 {
                    assert(before[p2].index < before[p1].index);
                }
                assert(x == y);
            }
        };
    }
    o
}

/// Resolves which ADRs are in force and assembles their declarations and clauses:
/// a reference to an unknown ADR is an error; the ADRs in force are those accepted
/// (or proposed, on request) that no accepted ADR supersedes, in identifier order;
/// clauses are put in canonical order and the whole is type checked.
pub fn effective(adrs: &Vec<Adr>, include_proposed: bool) -> (r: Result<EffectiveSpecification, Error>)
    ensures
        !all_refs_resolved(adrs@) <==> r matches Err(Error::InvalidReference { .. }),
        r matches Err(Error::InvalidReference { adr_id, reference }) ==> exists|i: int, k: int|
            #![trigger refs(adrs@[i])[k]]
            {
                &&& 0 <= i < adrs@.len()
                &&& 0 <= k < refs(adrs@[i]).len()
                &&& adrs@[i].id@ == adr_id@
                &&& refs(adrs@[i])[k]@ == reference@
                &&& !known_id(adrs@, reference@)
                &&& forall|i2: int| 0 <= i2 < i ==> #[trigger] refs_resolved(adrs@, i2)
                &&& forall|k2: int| 0 <= k2 < k ==> known_id(adrs@, #[trigger] refs(adrs@[i])[k2]@)
            },
        all_refs_resolved(adrs@) ==> (r is Ok <==> exists|o: Seq<int>|
            is_activation_order(adrs@, include_proposed, o) && #[trigger] views_typed(
                gathered_decls(adrs@, o),
                gathered_clauses(adrs@, o),
            )),
        all_refs_resolved(adrs@) && r is Err ==> r matches Err(Error::Diagnostic { .. }),
        r matches Err(Error::Diagnostic { path, line, column, .. }) ==> exists|o: Seq<int>, c: int|
            #[trigger] is_activation_order(adrs@, include_proposed, o) && 0 <= c < gathered_clauses(adrs@, o).len() && {
                let cl = #[trigger] gathered_clauses(adrs@, o)[c];
                &&& !check(gathered_decls(adrs@, o), cl.expression, Map::empty()).0
                &&& path@ == cl.filename
                &&& line == cl.line
                &&& column == cl.column
            },
        r matches Ok(s) ==> effective_of(adrs@, include_proposed, s),
{
    let ids = adr_ids(adrs);
    let mut i: usize = 0;
    while i < adrs.len()
        invariant
            i <= adrs@.len(),
            forall|r: Seq<char>| #[trigger] set_has(ids@, r) <==> known_id(adrs@, r),
            forall|i2: int| 0 <= i2 < i ==> #[trigger] refs_resolved(adrs@, i2),
        decreases adrs.len() - i,
    {
        let a = &adrs[i];
        let ghost rs = refs(adrs@[i as int]);
        let ghost ns = a.supersedes@.len();
        let ghost nm = a.amends@.len();
        proof {
            assert(adrs@[i as int] == *a);
            assert forall|k: int| 0 <= k < ns implies rs[k] == a.supersedes@[k] by {};
            assert forall|k: int| 0 <= k < nm implies rs[ns + k] == a.amends@[k] by {};
            assert forall|k: int| 0 <= k < a.exception_to@.len() implies rs[ns + nm + k] == a.exception_to@[k] by {};
        }
        match first_unknown(&a.supersedes, &ids) {
            Some(k) => {
                proof {
                    assert(rs[k as int] == a.supersedes@[k as int]);
                    assert(!refs_resolved(adrs@, i as int));
                }
                return Err(Error::InvalidReference { adr_id: a.id.clone(), reference: a.supersedes[k].clone() });
            },
            None => {},
        }
        match first_unknown(&a.amends, &ids) {
            Some(k) => {
                proof {
                    assert(rs[ns + k] == a.amends@[k as int]);
                    assert(!refs_resolved(adrs@, i as int));
                    assert forall|k2: int| 0 <= k2 < ns + k implies known_id(adrs@, #[trigger] rs[k2]@) by {
                        if k2 >= ns {
                            assert(rs[k2] == a.amends@[k2 - ns]);
                        }
                    };
                }
                return Err(Error::InvalidReference { adr_id: a.id.clone(), reference: a.amends[k].clone() });
            },
            None => {},
        }
        match first_unknown(&a.exception_to, &ids) {
            Some(k) => {
                proof {
                    assert(rs[ns + nm + k] == a.exception_to@[k as int]);
                    assert(!refs_resolved(adrs@, i as int));
                    assert forall|k2: int| 0 <= k2 < ns + nm + k implies known_id(adrs@, #[trigger] rs[k2]@) by {
                        if ns <= k2 < ns + nm {
                            assert(rs[k2] == a.amends@[k2 - ns]);
                        } else if k2 >= ns + nm {
                            assert(rs[k2] == a.exception_to@[k2 - ns - nm]);
                        }
                    };
                }
                return Err(Error::InvalidReference { adr_id: a.id.clone(), reference: a.exception_to[k].clone() });
            },
            None => {},
        }
        proof {
            assert forall|k2: int| 0 <= k2 < rs.len() implies known_id(adrs@, #[trigger] rs[k2]@) by {
                if k2 < ns {
                    assert(rs[k2] == a.supersedes@[k2]);
                } else if k2 < ns + nm {
                    assert(rs[k2] == a.amends@[k2 - ns]);
                } else {
                    assert(rs[k2] == a.exception_to@[k2 - ns - nm]);
                }
            };
            assert(refs_resolved(adrs@, i as int));
        }
        i = i + 1;
    }
    let o = activation_order(adrs, include_proposed);
    let ghost om = o@.map_values(|i: usize| i as int);
    let mut declarations: Vec<Decl> = Vec::new();
    let mut gathered: Vec<Clause> = Vec::new();
    let mut active_adrs: Vec<String> = Vec::new();
    let mut k: usize = 0;
    while k < o.len()
        invariant
            k <= o@.len(),
            om == o@.map_values(|i: usize| i as int),
            is_activation_order(adrs@, include_proposed, om),
            active_adrs@.len() == k,
            forall|q: int| 0 <= q < k ==> (#[trigger] active_adrs@[q])@ == adrs@[om[q]].id@,
            decl_views(declarations@) == gathered_decls(adrs@, om.take(k as int)),
            clause_views(gathered@) == gathered_clauses(adrs@, om.take(k as int)),
        decreases o.len() - k,
    {
        let j = o[k];
        proof {
            assert(om.take(k + 1).drop_last() =~= om.take(k as int));
            assert(om.take(k + 1).last() == j as int);
            assert(0 <= om[k as int] < adrs@.len());
        }
        let a = &adrs[j];
        active_adrs.push(a.id.clone());
        let ghost d0 = declarations@;
        let mut p: usize = 0;
        while p < a.declarations.len()
            invariant
                p <= a.declarations@.len(),
                declarations@ == d0 + declarations@.subrange(d0.len() as int, declarations@.len() as int),
                decl_views(declarations@) == decl_views(d0) + decl_views(a.declarations@.take(p as int)),
            decreases a.declarations.len() - p,
        {
            let ghost before = declarations@;
            declarations.push(a.declarations[p].clone());
            proof {
                assert(decl_views(declarations@) =~= decl_views(before).push(a.declarations@[p as int]@));
                assert(decl_views(a.declarations@.take(p + 1)) =~= decl_views(a.declarations@.take(p as int)).push(a.declarations@[p as int]@));
                assert(declarations@ =~= d0 + declarations@.subrange(d0.len() as int, declarations@.len() as int));
            }
            p = p + 1;
        }
        let ghost g0 = gathered@;
        let mut p: usize = 0;
        while p < a.clauses.len()
            invariant
                p <= a.clauses@.len(),
                clause_views(gathered@) == clause_views(g0) + clause_views(a.clauses@.take(p as int)),
            decreases a.clauses.len() - p,
        {
            let ghost before = gathered@;
            gathered.push(a.clauses[p].clone());
            proof {
                assert(clause_views(gathered@) =~= clause_views(before).push(a.clauses@[p as int]@));
                assert(clause_views(a.clauses@.take(p + 1)) =~= clause_views(a.clauses@.take(p as int)).push(a.clauses@[p as int]@));
            }
            p = p + 1;
        }
        proof {
            assert(a.declarations@.take(a.declarations@.len() as int) =~= a.declarations@);
            assert(a.clauses@.take(a.clauses@.len() as int) =~= a.clauses@);
        }
        k = k + 1;
    }
    proof {
        assert(om.take(o@.len() as int) =~= om);
    }
    let ghost g = gathered@;
    let clauses = sort_stable(gathered);
    proof {
        broadcast use vstd::seq_lib::group_seq_properties;
        broadcast use vstd::multiset::group_multiset_axioms;
    }
    match typecheck(&declarations, &clauses) {
        Err(e) => {
            proof {
                broadcast use vstd::seq_lib::group_seq_properties;
                broadcast use vstd::multiset::group_multiset_axioms;
                let gd = gathered_decls(adrs@, om);
                let gc = gathered_clauses(adrs@, om);
                let i = choose|i: int| #![trigger clauses@[i]] {
                    &&& 0 <= i < clauses@.len()
                    &&& !check(decl_views(declarations@), clauses@[i].expression@, Map::empty()).0
                    &&& clauses_typed(decl_views(declarations@), clauses@.take(i))
                    &&& e matches Error::Diagnostic { path, line, column, .. }
                    &&& path@ == clauses@[i].span.filename@
                    &&& line == clauses@[i].span.line
                    &&& column == clauses@[i].span.column
                };
                assert(clauses@.contains(clauses@[i]));
                assert(g.to_multiset().count(clauses@[i]) > 0);
                assert(g.contains(clauses@[i]));
                let p = choose|p: int| 0 <= p < g.len() && g[p] == clauses@[i];
                assert(gc[p] == g[p]@);
                assert(gc.len() == g.len());
                if exists|o2: Seq<int>| is_activation_order(adrs@, include_proposed, o2) && #[trigger] views_typed(gathered_decls(adrs@, o2), gathered_clauses(adrs@, o2)) {
                    let o2 = choose|o2: Seq<int>| is_activation_order(adrs@, include_proposed, o2) && #[trigger] views_typed(gathered_decls(adrs@, o2), gathered_clauses(adrs@, o2));
                    lemma_activation_order_unique(adrs@, include_proposed, om, o2);
                    assert forall|q: int| 0 <= q < clauses@.len() implies check(decl_views(declarations@), #[trigger] clauses@[q].expression@, Map::empty()).0 by {
                        assert(clauses@.contains(clauses@[q]));
                        assert(g.to_multiset().count(clauses@[q]) > 0);
                        assert(g.contains(clauses@[q]));
                        let p = choose|p: int| 0 <= p < g.len() && g[p] == clauses@[q];
                        assert(gc[p] == g[p]@);
                        assert(views_typed(gd, gc));
                        assert(check(gd, gc[p].expression, Map::empty()).0);
                    };
                }
            }
            Err(e)
        },
        Ok(()) => {
            let s = EffectiveSpecification { clauses, declarations, active_adrs };
            proof {
                broadcast use vstd::seq_lib::group_seq_properties;
                broadcast use vstd::multiset::group_multiset_axioms;
                let gd = gathered_decls(adrs@, om);
                let gc = gathered_clauses(adrs@, om);
                assert forall|p: int| 0 <= p < gc.len() implies check(gd, #[trigger] gc[p].expression, Map::empty()).0 by {
                    assert(gc[p] == g[p]@);
                    assert(g.contains(g[p]));
                    assert(g.to_multiset().count(g[p]) > 0);
                    assert(s.clauses@.contains(g[p]));
                    let q = choose|q: int| 0 <= q < s.clauses@.len() && s.clauses@[q] == g[p];
                    assert(check(decl_views(s.declarations@), s.clauses@[q].expression@, Map::empty()).0);
                };
                assert(views_typed(gd, gc));
                assert forall|i: int, j: int| #![trigger s.clauses@[i], s.clauses@[j]] 0 <= i < j < s.clauses@.len()
                    implies clause_le(s.clauses@[i]@, s.clauses@[j]@) by {
                    assert(s.clauses@[i].le(&s.clauses@[j]));
                };
                assert(effective_of(adrs@, include_proposed, s));
            }
            Ok(s)
        },
    }
}

proof fn lemma_rank_strict(adrs: Seq<Adr>, x: int, y: int)
    ensures
        !rank_lt(adrs, x, x),
        !(rank_lt(adrs, x, y) && rank_lt(adrs, y, x)),
{
    lemma_lt_irreflexive(adrs[x].id@);
    lemma_lt_irreflexive(adrs[y].id@);
    if seq_lt(adrs[x].id@, adrs[y].id@) {
        lemma_lt_asymmetric(adrs[x].id@, adrs[y].id@);
    }
}

/// Two rank-increasing sequences with the same elements are equal.
proof fn lemma_ranked_unique(adrs: Seq<Adr>, o1: Seq<int>, o2: Seq<int>)
    requires
        forall|x: int| o1.contains(x) <==> o2.contains(x),
        forall|k: int, l: int| #![trigger o1[k], o1[l]] 0 <= k < l < o1.len() ==> rank_lt(adrs, o1[k], o1[l]),
        forall|k: int, l: int| #![trigger o2[k], o2[l]] 0 <= k < l < o2.len() ==> rank_lt(adrs, o2[k], o2[l]),
    ensures
        o1 == o2,
    decreases o1.len(),
{
    if o1.len() == 0 {
        if o2.len() > 0 {
            assert(o2.contains(o2[0]));
        }
        assert(o1 =~= o2);
    } else {
        assert(o1.contains(o1[0]));
        assert(o2.len() > 0);
        assert(o2.contains(o2[0]));
        let p = choose|p: int| 0 <= p < o2.len() && o2[p] == o1[0];
        let q = choose|q: int| 0 <= q < o1.len() && o1[q] == o2[0];
        if p > 0 {
            lemma_rank_strict(adrs, o2[0], o1[0]);
            if q == 0 {
                assert(rank_lt(adrs, o2[0], o2[p]));
            } else {
                assert(rank_lt(adrs, o1[0], o1[q]));
            }
        }
        assert(o1[0] == o2[0]);
        let t1 = o1.drop_first();
        let t2 = o2.drop_first();
        assert forall|x: int| t1.contains(x) <==> t2.contains(x) by {
            if t1.contains(x) {
                let k = choose|k: int| 0 <= k < t1.len() && t1[k] == x;
                assert(o1[k + 1] == x);
                assert(rank_lt(adrs, o1[0], o1[k + 1]));
                lemma_rank_strict(adrs, x, x);
                assert(o1.contains(x));
                let m = choose|m: int| 0 <= m < o2.len() && o2[m] == x;
                assert(m != 0);
                assert(t2[m - 1] == x);
            }
            if t2.contains(x) {
                let k = choose|k: int| 0 <= k < t2.len() && t2[k] == x;
                assert(o2[k + 1] == x);
                assert(rank_lt(adrs, o2[0], o2[k + 1]));
                lemma_rank_strict(adrs, x, x);
                assert(o2.contains(x));
                let m = choose|m: int| 0 <= m < o1.len() && o1[m] == x;
                assert(m != 0);
                assert(t1[m - 1] == x);
            }
        };
        assert forall|k: int, l: int| #![trigger t1[k], t1[l]] 0 <= k < l < t1.len() implies rank_lt(adrs, t1[k], t1[l]) by {
            assert(rank_lt(adrs, o1[k + 1], o1[l + 1]));
        };
        assert forall|k: int, l: int| #![trigger t2[k], t2[l]] 0 <= k < l < t2.len() implies rank_lt(adrs, t2[k], t2[l]) by {
            assert(rank_lt(adrs, o2[k + 1], o2[l + 1]));
        };
        lemma_ranked_unique(adrs, t1, t2);
        assert(o1 =~= seq![o1[0]] + t1);
        assert(o2 =~= seq![o2[0]] + t2);
    }
}

/// There is only one activation order.
proof fn lemma_activation_order_unique(adrs: Seq<Adr>, include_proposed: bool, o1: Seq<int>, o2: Seq<int>)
    requires
        is_activation_order(adrs, include_proposed, o1),
        is_activation_order(adrs, include_proposed, o2),
    ensures
        o1 == o2,
{
    assert forall|x: int| o1.contains(x) <==> o2.contains(x) by {
        if o1.contains(x) {
            let k = choose|k: int| 0 <= k < o1.len() && o1[k] == x;
            assert(0 <= o1[k] < adrs.len() && is_active(adrs, include_proposed, o1[k]));
        }
        if o2.contains(x) {
            let k = choose|k: int| 0 <= k < o2.len() && o2[k] == x;
            assert(0 <= o2[k] < adrs.len() && is_active(adrs, include_proposed, o2[k]));
        }
    };
    lemma_ranked_unique(adrs, o1, o2);
}

// ---------------------------------------------------------------------------
// Laws
// ---------------------------------------------------------------------------

/// An ADR superseded by an accepted ADR is not in force: its identifier is not among
/// the active ADRs of the effective specification.
pub proof fn law_superseded_adrs_are_inactive(adrs: Seq<Adr>, include_proposed: bool, s: EffectiveSpecification, i: int)
    requires
        effective_of(adrs, include_proposed, s),
        0 <= i < adrs.len(),
        superseded(adrs, adrs[i].id@),
    ensures
        forall|k: int| 0 <= k < s.active_adrs@.len() ==> (#[trigger] s.active_adrs@[k])@ != adrs[i].id@,
{
    let (o, g) = choose|o: Seq<int>, g: Seq<Clause>| {
        &&& is_activation_order(adrs, include_proposed, o)
        &&& s.active_adrs@.len() == o.len()
        &&& forall|k: int| 0 <= k < o.len() ==> (#[trigger] s.active_adrs@[k])@ == adrs[o[k]].id@
        &&& decl_views(s.declarations@) == gathered_decls(adrs, o)
        &&& clause_views(g) == gathered_clauses(adrs, o)
        &&& s.clauses@.to_multiset() == g.to_multiset()
        &&& forall|i: int, j: int| #![trigger s.clauses@[i], s.clauses@[j]] 0 <= i < j < s.clauses@.len()
            ==> clause_le(s.clauses@[i]@, s.clauses@[j]@)
        &&& views_typed(gathered_decls(adrs, o), gathered_clauses(adrs, o))
    };
    assert forall|k: int| 0 <= k < s.active_adrs@.len() implies (#[trigger] s.active_adrs@[k])@ != adrs[i].id@ by {
        assert(is_active(adrs, include_proposed, o[k]));
    };
}

/// Without proposals, only accepted ADRs are in force.
pub proof fn law_only_accepted_adrs_are_active(adrs: Seq<Adr>, s: EffectiveSpecification, k: int)
    requires
        effective_of(adrs, false, s),
        0 <= k < s.active_adrs@.len(),
    ensures
        exists|i: int| 0 <= i < adrs.len() && adrs[i].status == Status::Accepted && #[trigger] adrs[i].id@ == s.active_adrs@[k]@,
{
    let (o, g) = choose|o: Seq<int>, g: Seq<Clause>| {
        &&& is_activation_order(adrs, false, o)
        &&& s.active_adrs@.len() == o.len()
        &&& forall|k: int| 0 <= k < o.len() ==> (#[trigger] s.active_adrs@[k])@ == adrs[o[k]].id@
        &&& decl_views(s.declarations@) == gathered_decls(adrs, o)
        &&& clause_views(g) == gathered_clauses(adrs, o)
        &&& s.clauses@.to_multiset() == g.to_multiset()
        &&& forall|i: int, j: int| #![trigger s.clauses@[i], s.clauses@[j]] 0 <= i < j < s.clauses@.len()
            ==> clause_le(s.clauses@[i]@, s.clauses@[j]@)
        &&& views_typed(gathered_decls(adrs, o), gathered_clauses(adrs, o))
    };
    assert(is_active(adrs, false, o[k]));
    assert(adrs[o[k]].id@ == s.active_adrs@[k]@);
}

} // verus!
