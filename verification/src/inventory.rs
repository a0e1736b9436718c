//! The declared requirement inventory: which ADRs and requirements the inventory
//! lists, checked against the ADR documents. It records what it finds; it neither
//! approves anything nor runs a verification.
use vstd::prelude::*;
use crate::adr::{Adr, Error, Status, strs};
use crate::effective::EffectiveSpecification;
use crate::evidence::{InputFingerprint, sha256_hex};
use crate::keyed::set_has;
use crate::project::ProjectModel;
use crate::sorting::{Ordered, lemma_map_multiset, sorted_le};
use crate::text::{lemma_lt_irreflexive, lemma_lt_total, lemma_lt_transitive, own, seq_lt, str_eq, str_lt, trim};

verus! {

/// What a requirement is.
#[derive(Debug, Clone, Copy, PartialEq, Eq, Structural)]
pub enum RequirementKind {
    Normative,
    Informative,
    Rationale,
}

/// How a requirement claims to be formalized.
#[derive(Debug, Clone, Copy, PartialEq, Eq, Structural)]
pub enum DeclaredMapping {
    Mapped,
    Partial,
    Unmapped,
}

/// One declared requirement: where its text stands and which constraints
/// formalize it.
#[derive(Debug)]
pub struct RequirementEntry {
    pub id: String,
    pub kind: RequirementKind,
    pub start_line: usize,
    pub end_line: usize,
    pub mapping: DeclaredMapping,
    pub constraints: Vec<String>,
    pub reason: Option<String>,
}

/// One inventoried ADR and its requirements.
#[derive(Debug)]
pub struct DecisionEntry {
    pub id: String,
    pub source: String,
    pub requirements: Vec<RequirementEntry>,
}

/// The requirement inventory.
#[derive(Debug)]
pub struct Inventory {
    pub schema_version: String,
    pub adrs: Vec<DecisionEntry>,
}

/// What the inventory shows of one ADR.
#[derive(Debug)]
pub struct DecisionInventory {
    pub id: String,
    pub source: String,
    pub inventoried: bool,
    pub present: bool,
    pub status: Option<Status>,
    pub active: bool,
    pub inactive_reason: Option<String>,
}

/// Something the inventory leaves open.
#[derive(Debug)]
pub struct Gap {
    pub code: String,
    pub decision: String,
    pub requirement: Option<String>,
    pub target: Option<String>,
}

/// The outcome of an inspection.
#[derive(Debug)]
pub struct InventoryReport {
    pub schema_version: String,
    pub result: String,
    pub review_status: String,
    pub verification_status: String,
    pub decisions: Vec<DecisionInventory>,
    pub gaps: Vec<Gap>,
    pub inputs: Vec<InputFingerprint>,
    pub model: ProjectModel,
}

impl InventoryReport {
    /// The process exit code: 0 when nothing is left open, else 3.
    pub fn exit_code(&self) -> (r: i32)
        ensures
            r == if self.gaps@.len() == 0 { 0i32 } else { 3i32 },
    {
        if self.gaps.len() == 0 {
            0
        } else {
            3
        }
    }
}

// ---------------------------------------------------------------------------
// Orders
// ---------------------------------------------------------------------------

pub open spec fn opt_lt(a: Option<String>, b: Option<String>) -> bool {
    match (a, b) {
        (None, Some(_)) => true,
        (Some(x), Some(y)) => seq_lt(x@, y@),
        _ => false,
    }
}

pub open spec fn opt_same(a: Option<String>, b: Option<String>) -> bool {
    match (a, b) {
        (None, None) => true,
        (Some(x), Some(y)) => x@ == y@,
        _ => false,
    }
}

proof fn lemma_opt_total(a: Option<String>, b: Option<String>)
    ensures
        opt_lt(a, b) || opt_lt(b, a) || opt_same(a, b),
{
    if a is Some && b is Some {
        lemma_lt_total(a->0@, b->0@);
    }
}

proof fn lemma_opt_transitive(a: Option<String>, b: Option<String>, c: Option<String>)
    ensures
        opt_lt(a, b) && opt_lt(b, c) ==> opt_lt(a, c),
        opt_lt(a, b) && opt_same(b, c) ==> opt_lt(a, c),
        opt_same(a, b) && opt_lt(b, c) ==> opt_lt(a, c),
        opt_same(a, b) && opt_same(b, c) ==> opt_same(a, c),
{
    if a is Some && b is Some && c is Some && seq_lt(a->0@, b->0@) && seq_lt(b->0@, c->0@) {
        lemma_lt_transitive(a->0@, b->0@, c->0@);
    }
}

fn opt_lt_exec(a: &Option<String>, b: &Option<String>) -> (r: bool)
    ensures
        r == opt_lt(*a, *b),
{
    match (a, b) {
        (None, Some(_)) => true,
        (Some(x), Some(y)) => str_lt(x.as_str(), y.as_str()),
        _ => false,
    }
}

fn opt_same_exec(a: &Option<String>, b: &Option<String>) -> (r: bool)
    ensures
        r == opt_same(*a, *b),
{
    match (a, b) {
        (None, None) => true,
        (Some(x), Some(y)) => str_eq(x.as_str(), y.as_str()),
        _ => false,
    }
}

/// Gaps in order of code, ADR, requirement and target (no value first).
impl Ordered for Gap {
    open spec fn le(&self, other: &Self) -> bool {
        ||| seq_lt(self.code@, other.code@)
        ||| self.code@ == other.code@ && seq_lt(self.decision@, other.decision@)
        ||| self.code@ == other.code@ && self.decision@ == other.decision@ && opt_lt(self.requirement, other.requirement)
        ||| self.code@ == other.code@ && self.decision@ == other.decision@ && opt_same(self.requirement, other.requirement) && (
        opt_lt(self.target, other.target) || opt_same(self.target, other.target))
    }

    proof fn lemma_le_total(a: &Self, b: &Self) {
        lemma_lt_total(a.code@, b.code@);
        lemma_lt_total(a.decision@, b.decision@);
        lemma_opt_total(a.requirement, b.requirement);
        lemma_opt_total(a.target, b.target);
        lemma_opt_transitive(a.requirement, b.requirement, a.requirement);
        lemma_opt_transitive(b.requirement, a.requirement, b.requirement);
        lemma_opt_transitive(a.target, b.target, a.target);
        lemma_opt_transitive(b.target, a.target, b.target);
    }

    proof fn lemma_le_transitive(a: &Self, b: &Self, c: &Self) {
        if seq_lt(a.code@, b.code@) && seq_lt(b.code@, c.code@) {
            lemma_lt_transitive(a.code@, b.code@, c.code@);
        }
        if seq_lt(a.decision@, b.decision@) && seq_lt(b.decision@, c.decision@) {
            lemma_lt_transitive(a.decision@, b.decision@, c.decision@);
        }
        lemma_opt_transitive(a.requirement, b.requirement, c.requirement);
        lemma_opt_transitive(a.target, b.target, c.target);
    }

    fn le_exec(&self, other: &Self) -> (r: bool) {
        let cl = str_lt(self.code.as_str(), other.code.as_str());
        let ce = str_eq(self.code.as_str(), other.code.as_str());
        let dl = str_lt(self.decision.as_str(), other.decision.as_str());
        let de = str_eq(self.decision.as_str(), other.decision.as_str());
        let rl = opt_lt_exec(&self.requirement, &other.requirement);
        let re = opt_same_exec(&self.requirement, &other.requirement);
        let tl = opt_lt_exec(&self.target, &other.target);
        let te = opt_same_exec(&self.target, &other.target);
        cl || (ce && dl) || (ce && de && rl) || (ce && de && re && (tl || te))
    }
}

/// Decisions in order of identifier, source, and listed before unlisted.
impl Ordered for DecisionInventory {
    open spec fn le(&self, other: &Self) -> bool {
        ||| seq_lt(self.id@, other.id@)
        ||| self.id@ == other.id@ && seq_lt(self.source@, other.source@)
        ||| self.id@ == other.id@ && self.source@ == other.source@ && (!self.inventoried || other.inventoried)
    }

    proof fn lemma_le_total(a: &Self, b: &Self) {
        lemma_lt_total(a.id@, b.id@);
        lemma_lt_total(a.source@, b.source@);
    }

    proof fn lemma_le_transitive(a: &Self, b: &Self, c: &Self) {
        if seq_lt(a.id@, b.id@) && seq_lt(b.id@, c.id@) {
            lemma_lt_transitive(a.id@, b.id@, c.id@);
        }
        if seq_lt(a.source@, b.source@) && seq_lt(b.source@, c.source@) {
            lemma_lt_transitive(a.source@, b.source@, c.source@);
        }
    }

    fn le_exec(&self, other: &Self) -> (r: bool) {
        str_lt(self.id.as_str(), other.id.as_str()) || (str_eq(self.id.as_str(), other.id.as_str()) && str_lt(
            self.source.as_str(),
            other.source.as_str(),
        )) || (str_eq(self.id.as_str(), other.id.as_str()) && str_eq(self.source.as_str(), other.source.as_str()) && (
        !self.inventoried || other.inventoried))
    }
}

/// Fingerprints in order of source.
impl Ordered for InputFingerprint {
    open spec fn le(&self, other: &Self) -> bool {
        seq_lt(self.source@, other.source@) || self.source@ == other.source@
    }

    proof fn lemma_le_total(a: &Self, b: &Self) {
        lemma_lt_total(a.source@, b.source@);
    }

    proof fn lemma_le_transitive(a: &Self, b: &Self, c: &Self) {
        if seq_lt(a.source@, b.source@) && seq_lt(b.source@, c.source@) {
            lemma_lt_transitive(a.source@, b.source@, c.source@);
        }
    }

    fn le_exec(&self, other: &Self) -> (r: bool) {
        str_lt(self.source.as_str(), other.source.as_str()) || str_eq(self.source.as_str(), other.source.as_str())
    }
}

// ---------------------------------------------------------------------------
// Validation
// ---------------------------------------------------------------------------

pub open spec fn is_control(c: char) -> bool {
    c <= '\u{1F}' || ('\u{7F}' <= c && c <= '\u{9F}')
}

/// An identifier: nonempty, untrimmed and free of control characters.
pub open spec fn valid_id(s: Seq<char>) -> bool {
    s.len() > 0 && trim(s) == s && forall|i: int| 0 <= i < s.len() ==> !is_control(#[trigger] s[i])
}

fn control_free(s: &str) -> (r: bool)
    ensures
        r == forall|i: int| 0 <= i < s@.len() ==> !is_control(#[trigger] s@[i]),
{
    let v = crate::text::chars_of(s);
    let mut i: usize = 0;
    while i < v.len()
        invariant
            i <= v@.len(),
            v@ == s@,
            forall|j: int| 0 <= j < i ==> !is_control(#[trigger] v@[j]),
        decreases v.len() - i,
    {
        let c = v[i];
        if c <= '\u{1F}' || ('\u{7F}' <= c && c <= '\u{9F}') {
            return false;
        }
        i = i + 1;
    }
    true
}

fn valid_id_exec(s: &str) -> (r: bool)
    ensures
        r == valid_id(s@),
{
    let t = crate::text::trim_string(s);
    !crate::text::is_empty_str(s) && str_eq(t.as_str(), s) && control_free(s)
}

/// `s` names the ADR file `id` is listed for among the documents, by relative path.
pub open spec fn is_md(s: Seq<char>) -> bool {
    s.len() >= 3 && s.subrange(s.len() - 3, s.len() as int) == ".md"@
}

/// The inventory is well formed: the expected schema, at least one ADR, distinct
/// valid ADR identifiers and `.md` sources, distinct valid requirement identifiers
/// with a one-based nonempty line range, distinct valid targets that are present
/// exactly when the requirement is mapped, rationales unmapped, and a nonblank reason
/// for every rationale or partial mapping.
pub open spec fn inventory_valid(inv: Inventory) -> bool {
    &&& inv.schema_version@ == "adrproof-requirements-v1alpha1"@
    &&& inv.adrs@.len() > 0
    &&& forall|i: int| 0 <= i < inv.adrs@.len() ==> valid_id((#[trigger] inv.adrs@[i]).id@) && is_md(inv.adrs@[i].source@)
    &&& forall|i: int, j: int| #![trigger inv.adrs@[i], inv.adrs@[j]] 0 <= i < j < inv.adrs@.len() ==> inv.adrs@[i].id@ != inv.adrs@[j].id@
        && inv.adrs@[i].source@ != inv.adrs@[j].source@
    &&& forall|i: int, k: int| #![trigger inv.adrs@[i].requirements@[k]] 0 <= i < inv.adrs@.len() && 0 <= k < inv.adrs@[i].requirements@.len()
        ==> requirement_valid(inv.adrs@[i].requirements@[k])
    &&& distinct_texts(all_requirement_ids(inv.adrs@))
}

/// No text occurs twice.
pub open spec fn distinct_texts(s: Seq<Seq<char>>) -> bool {
    forall|a: int, b: int| #![trigger s[a], s[b]] 0 <= a < b < s.len() ==> s[a] != s[b]
}

/// The identifiers of all requirements, ADR by ADR.
pub open spec fn all_requirement_ids(adrs: Seq<DecisionEntry>) -> Seq<Seq<char>>
    decreases adrs.len(),
{
    if adrs.len() == 0 {
        Seq::empty()
    } else {
        all_requirement_ids(adrs.drop_last()) + adrs.last().requirements@.map_values(|r: RequirementEntry| r.id@)
    }
}

pub open spec fn requirement_valid(r: RequirementEntry) -> bool {
    &&& valid_id(r.id@)
    &&& r.start_line != 0 && r.end_line >= r.start_line
    &&& forall|a: int| 0 <= a < r.constraints@.len() ==> valid_id((#[trigger] r.constraints@[a])@)
    &&& forall|a: int, b: int| #![trigger r.constraints@[a], r.constraints@[b]] 0 <= a < b < r.constraints@.len() ==> r.constraints@[a]@
        != r.constraints@[b]@
    &&& (r.mapping == DeclaredMapping::Unmapped) == (r.constraints@.len() == 0)
    &&& (r.kind == RequirementKind::Rationale ==> r.mapping == DeclaredMapping::Unmapped)
    &&& ((r.kind == RequirementKind::Rationale || r.mapping == DeclaredMapping::Partial) ==> (r.reason matches Some(x) && trim(x@).len()
        > 0))
}

fn distinct_strings(v: &Vec<String>) -> (r: bool)
    ensures
        r == forall|a: int, b: int| #![trigger v@[a], v@[b]] 0 <= a < b < v@.len() ==> v@[a]@ != v@[b]@,
{
    let mut i: usize = 0;
    while i < v.len()
        invariant
            i <= v@.len(),
            forall|a: int, b: int| #![trigger v@[a], v@[b]] 0 <= a < b < v@.len() && a < i ==> v@[a]@ != v@[b]@,
        decreases v.len() - i,
    {
        let mut j: usize = i + 1;
        while j < v.len()
            invariant
                i < v@.len(),
                i + 1 <= j <= v@.len(),
                forall|a: int, b: int| #![trigger v@[a], v@[b]] 0 <= a < b < v@.len() && a < i ==> v@[a]@ != v@[b]@,
                forall|b: int| i < b < j ==> v@[i as int]@ != (#[trigger] v@[b])@,
            decreases v.len() - j,
        {
            if str_eq(v[i].as_str(), v[j].as_str()) {
                return false;
            }
            j = j + 1;
        }
        i = i + 1;
    }
    true
}

fn requirement_ok(r: &RequirementEntry) -> (ok: bool)
    ensures
        ok == requirement_valid(*r),
{
    if !valid_id_exec(r.id.as_str()) || r.start_line == 0 || r.end_line < r.start_line {
        return false;
    }
    let mut a: usize = 0;
    while a < r.constraints.len()
        invariant
            a <= r.constraints@.len(),
            forall|x: int| 0 <= x < a ==> valid_id((#[trigger] r.constraints@[x])@),
        decreases r.constraints.len() - a,
    {
        if !valid_id_exec(r.constraints[a].as_str()) {
            return false;
        }
        a = a + 1;
    }
    if !distinct_strings(&r.constraints) {
        return false;
    }
    let unmapped = r.mapping == DeclaredMapping::Unmapped;
    if unmapped != (r.constraints.len() == 0) {
        return false;
    }
    if r.kind == RequirementKind::Rationale && !unmapped {
        return false;
    }
    if r.kind == RequirementKind::Rationale || r.mapping == DeclaredMapping::Partial {
        match &r.reason {
            Some(x) => {
                let t = crate::text::trim_string(x.as_str());
                if crate::text::is_empty_str(t.as_str()) {
                    return false;
                }
            },
            None => return false,
        }
    }
    true
}

fn inventory_error(message: &str) -> (e: Error)
    ensures
        e matches Error::Diagnostic { path, line, column, message: m } && path@ == "requirements.json"@ && line == 1 && column == 1
            && m@ == message@,
{
    crate::adr::diag("requirements.json", 1, 1, message)
}

/// Checks the inventory (see `inventory_valid`).
pub fn validate(inv: &Inventory) -> (r: Result<(), Error>)
    ensures
        r is Ok <==> inventory_valid(*inv),
        r matches Err(e) ==> e matches Error::Diagnostic { path, .. } && path@ == "requirements.json"@,
{
    proof {
        reveal_strlit("adrproof-requirements-v1alpha1");
        reveal_strlit(".md");
    }
    if !str_eq(inv.schema_version.as_str(), "adrproof-requirements-v1alpha1") {
        return Err(inventory_error("unsupported requirement inventory schema_version"));
    }
    if inv.adrs.len() == 0 {
        return Err(inventory_error("requirement inventory must contain at least one ADR"));
    }
    let mut i: usize = 0;
    while i < inv.adrs.len()
        invariant
            i <= inv.adrs@.len(),
            forall|a: int| 0 <= a < i ==> valid_id((#[trigger] inv.adrs@[a]).id@) && is_md(inv.adrs@[a].source@),
            forall|a: int, b: int| #![trigger inv.adrs@[a], inv.adrs@[b]] 0 <= a < b < inv.adrs@.len() && a < i ==> inv.adrs@[a].id@
                != inv.adrs@[b].id@ && inv.adrs@[a].source@ != inv.adrs@[b].source@,
            forall|a: int, k: int| #![trigger inv.adrs@[a].requirements@[k]] 0 <= a < i && 0 <= k < inv.adrs@[a].requirements@.len()
                ==> requirement_valid(inv.adrs@[a].requirements@[k]),
        decreases inv.adrs.len() - i,
    {
        proof {
            reveal_strlit(".md");
        }
        let e = &inv.adrs[i];
        if !valid_id_exec(e.id.as_str()) {
            return Err(inventory_error("invalid or duplicate inventory ADR ID"));
        }
        if !crate::text::ends_with(e.source.as_str(), ".md") {
            proof {
                assert(!is_md(e.source@));
            }
            return Err(inventory_error("invalid or duplicate inventory source path"));
        }
        let mut j: usize = i + 1;
        while j < inv.adrs.len()
            invariant
                i < inv.adrs@.len(),
                i + 1 <= j <= inv.adrs@.len(),
                valid_id(inv.adrs@[i as int].id@) && is_md(inv.adrs@[i as int].source@),
                forall|b: int| i < b < j ==> inv.adrs@[i as int].id@ != (#[trigger] inv.adrs@[b]).id@ && inv.adrs@[i as int].source@
                    != inv.adrs@[b].source@,
            decreases inv.adrs.len() - j,
        {
            if str_eq(inv.adrs[i].id.as_str(), inv.adrs[j].id.as_str()) {
                return Err(inventory_error("invalid or duplicate inventory ADR ID"));
            }
            if str_eq(inv.adrs[i].source.as_str(), inv.adrs[j].source.as_str()) {
                return Err(inventory_error("invalid or duplicate inventory source path"));
            }
            j = j + 1;
        }
        let mut k: usize = 0;
        while k < e.requirements.len()
            invariant
                i < inv.adrs@.len(),
                *e == inv.adrs@[i as int],
                valid_id(inv.adrs@[i as int].id@) && is_md(inv.adrs@[i as int].source@),
                k <= e.requirements@.len(),
                forall|x: int| 0 <= x < k ==> requirement_valid(#[trigger] e.requirements@[x]),
            decreases e.requirements.len() - k,
        {
            if !requirement_ok(&e.requirements[k]) {
                return Err(inventory_error("invalid requirement entry"));
            }
            k = k + 1;
        }
        proof {
            assert(valid_id(inv.adrs@[i as int].id@) && is_md(inv.adrs@[i as int].source@));
        }
        i = i + 1;
    }
    let ids = requirement_ids(inv);
    if !distinct_strings(&ids) {
        proof {
            let (a, b) = choose|a: int, b: int| 0 <= a < b < ids@.len() && ids@[a]@ == ids@[b]@;
            assert(strs(ids@)[a] == strs(ids@)[b]);
        }
        return Err(inventory_error("invalid or duplicate requirement ID"));
    }
    proof {
        assert forall|a: int, b: int| 0 <= a < b < strs(ids@).len() implies strs(ids@)[a] != strs(ids@)[b] by {
            assert(ids@[a]@ != ids@[b]@);
        };
    }
    Ok(())
}

/// The identifiers of all requirements, ADR by ADR.
fn requirement_ids(inv: &Inventory) -> (r: Vec<String>)
    ensures
        strs(r@) == all_requirement_ids(inv.adrs@),
{
    let mut ids: Vec<String> = Vec::new();
    let mut i: usize = 0;
    proof {
        assert(inv.adrs@.take(0) =~= Seq::<DecisionEntry>::empty());
        assert(strs(ids@) =~= Seq::<Seq<char>>::empty());
    }
    while i < inv.adrs.len()
        invariant
            i <= inv.adrs@.len(),
            strs(ids@) == all_requirement_ids(inv.adrs@.take(i as int)),
        decreases inv.adrs.len() - i,
    {
        let ghost before = strs(ids@);
        let mut k: usize = 0;
        while k < inv.adrs[i].requirements.len()
            invariant
                i < inv.adrs@.len(),
                k <= inv.adrs@[i as int].requirements@.len(),
                strs(ids@) == before + inv.adrs@[i as int].requirements@.take(k as int).map_values(|r: RequirementEntry| r.id@),
            decreases inv.adrs@[i as int].requirements@.len() - k,
        {
            let ghost o = ids@;
            ids.push(own(inv.adrs[i].requirements[k].id.as_str()));
            proof {
                assert(strs(ids@) =~= strs(o).push(inv.adrs@[i as int].requirements@[k as int].id@));
                assert(inv.adrs@[i as int].requirements@.take(k + 1).map_values(|r: RequirementEntry| r.id@)
                    =~= inv.adrs@[i as int].requirements@.take(k as int).map_values(|r: RequirementEntry| r.id@).push(
                    inv.adrs@[i as int].requirements@[k as int].id@));
            }
            k = k + 1;
        }
        proof {
            assert(inv.adrs@[i as int].requirements@.take(k as int) =~= inv.adrs@[i as int].requirements@);
            assert(inv.adrs@.take(i + 1).drop_last() =~= inv.adrs@.take(i as int));
            assert(inv.adrs@.take(i + 1).last() == inv.adrs@[i as int]);
        }
        i = i + 1;
    }
    proof {
        assert(inv.adrs@.take(inv.adrs@.len() as int) =~= inv.adrs@);
    }
    ids
}

// ---------------------------------------------------------------------------
// Inspection
// ---------------------------------------------------------------------------

/// The inventory lists ADR `id` with source `path`.
pub open spec fn listed(inv: Inventory, id: Seq<char>, path: Seq<char>) -> bool {
    exists|i: int| 0 <= i < inv.adrs@.len() && (#[trigger] inv.adrs@[i]).id@ == id && inv.adrs@[i].source@ == path
}

fn listed_exec(inv: &Inventory, id: &str, path: &str) -> (r: bool)
    ensures
        r == listed(*inv, id@, path@),
{
    let mut i: usize = 0;
    while i < inv.adrs.len()
        invariant
            i <= inv.adrs@.len(),
            forall|j: int| 0 <= j < i ==> !((#[trigger] inv.adrs@[j]).id@ == id@ && inv.adrs@[j].source@ == path@),
        decreases inv.adrs.len() - i,
    {
        if str_eq(inv.adrs[i].id.as_str(), id) && str_eq(inv.adrs[i].source.as_str(), path) {
            return true;
        }
        i = i + 1;
    }
    false
}

fn gap(code: &str, decision: &str, requirement: Option<&str>, target: Option<&str>) -> (g: Gap)
    ensures
        gap_text(g) == gt(code@, decision@, opt_str_text(requirement), opt_str_text(target)),
{
    Gap {
        code: own(code),
        decision: own(decision),
        requirement: match requirement {
            Some(x) => Some(own(x)),
            None => None,
        },
        target: match target {
            Some(x) => Some(own(x)),
            None => None,
        },
    }
}

/// The reason an ADR is out of force.
fn inactive_reason(status: Status) -> (r: String)
    ensures
        r@ == reason_text(status),
{
    proof {
        reveal_strlit("superseded_by_accepted_adr");
        reveal_strlit("proposed");
        reveal_strlit("deprecated");
        reveal_strlit("superseded");
    }
    match status {
        Status::Accepted => own("superseded_by_accepted_adr"),
        Status::Proposed => own("proposed"),
        Status::Deprecated => own("deprecated"),
        Status::Superseded => own("superseded"),
    }
}

/// Some line of `ls[start - 1 .. end]` is not blank, and the range lies within `ls`.
pub open spec fn selection_ok(ls: Seq<Seq<char>>, start: int, end: int) -> bool {
    end <= ls.len() && exists|k: int| start - 1 <= k < end && trim(#[trigger] ls[k]).len() > 0
}

fn selection_exec(text: &str, start: usize, end: usize) -> (r: bool)
    requires
        1 <= start <= end,
    ensures
        r == selection_ok(crate::document::lines_from(text@, 0), start as int, end as int),
{
    let ls = crate::document::lines(text);
    let ghost v = crate::document::lines_from(text@, 0);
    proof {
        assert(ls@.len() == v.len());
    }
    if end > ls.len() {
        return false;
    }
    let mut k: usize = start - 1;
    while k < end
        invariant
            start - 1 <= k <= end <= ls@.len(),
            v == crate::document::lines_from(text@, 0),
            ls@.len() == v.len(),
            ls@.map_values(|l: String| l@) == v,
            forall|q: int| start - 1 <= q < k ==> trim(#[trigger] v[q]).len() == 0,
        decreases end - k,
    {
        let t = crate::text::trim_string(ls[k].as_str());
        proof {
            assert(v[k as int] == ls@[k as int]@);
        }
        if !crate::text::is_empty_str(t.as_str()) {
            proof {
                assert(trim(v[k as int]).len() > 0);
                assert(start - 1 <= k < end);
                assert(end <= v.len());
                assert(exists|q: int| start - 1 <= q < end && trim(#[trigger] v[q]).len() > 0);
                assert(selection_ok(v, start as int, end as int));
                assert(v == crate::document::lines_from(text@, 0));
            }
            return true;
        }
        k = k + 1;
    }
    false
}

/// The fingerprint of requirements inventory bytes.
pub open spec fn inventory_fingerprint(f: InputFingerprint, requirements: Seq<u8>) -> bool {
    f.source@ == "spec:requirements.json"@ && f.sha256@ == sha256_hex(requirements)
}

/// The ADRs of the documents and the fingerprints of the inventory and of each document.
/// The ADR the document at `q` holds.
pub open spec fn discovered(documents: Seq<(String, String)>, q: int) -> crate::document::SAdr {
    crate::document::adr_of(documents[q].0@, documents[q].1@)->0
}

/// The constraint identifier of clause `c` of `v`: `ADR:clause`.
pub open spec fn clause_key_of(v: crate::document::SAdr, c: int) -> Seq<char> {
    v.id + ":"@ + v.clauses[c].id
}

/// Clause `(q, c)` comes before clause `(p, d)` in document order.
pub open spec fn key_before(q: int, c: int, p: int, d: int) -> bool {
    q < p || (q == p && c < d)
}

/// Clause `(q, d)` comes before clause `c` of document `j`.
pub open spec fn clause_seen(docs: Seq<(String, String)>, j: int, c: int, q: int, d: int) -> bool {
    0 <= q && 0 <= d < discovered(docs, q).clauses.len() && (q < j || (q == j && d < c))
}

/// The documents before `j` hold ADRs with valid, distinct identifiers, and the
/// clauses before clause `cl` of document `j` have distinct constraint identifiers.
#[verifier::opaque]
pub open spec fn discovered_prefix_ok(documents: Seq<(String, String)>, j: int, cl: int) -> bool {
    &&& forall|q: int| 0 <= q < j ==> valid_id(#[trigger] discovered(documents, q).id)
    &&& forall|q: int, p: int| 0 <= q < p < j ==> #[trigger] discovered(documents, q).id != #[trigger] discovered(documents, p).id
    &&& forall|q: int, c: int, p: int, d: int|
        clause_seen(documents, j, cl, q, c) && clause_seen(documents, j, cl, p, d) && key_before(q, c, p, d)
            ==> #[trigger] clause_key_of(discovered(documents, q), c) != #[trigger] clause_key_of(discovered(documents, p), d)
}

/// Every document holds an ADR, the ADR identifiers are valid and distinct, and so
/// are the constraint identifiers `ADR:clause`.
pub open spec fn discovered_ok(documents: Seq<(String, String)>) -> bool {
    crate::document::all_parse(documents) && discovered_prefix_ok(documents, documents.len() as int, 0)
}

/// `keys` holds exactly the constraint identifiers of the clauses before clause `c`
/// of document `j`.
spec fn key_seen(docs: Seq<(String, String)>, j: int, c: int, k: Seq<char>) -> bool {
    exists|q: int, d: int| clause_seen(docs, j, c, q, d) && k == #[trigger] clause_key_of(discovered(docs, q), d)
}

#[verifier::opaque]
spec fn keys_of_seen(docs: Seq<(String, String)>, keys: Seq<String>, j: int, c: int) -> bool {
    &&& forall|t: int| 0 <= t < keys.len() ==> key_seen(docs, j, c, (#[trigger] keys[t])@)
    &&& forall|q: int, d: int| clause_seen(docs, j, c, q, d) ==> set_has(keys, #[trigger] clause_key_of(discovered(docs, q), d))
}

proof fn lemma_prefix_extend(docs: Seq<(String, String)>, j: int, c: int, keys: Seq<String>)
    requires
        0 <= j < docs.len(),
        0 <= c < discovered(docs, j).clauses.len(),
        discovered_prefix_ok(docs, j, c),
        keys_of_seen(docs, keys, j, c),
        !set_has(keys, clause_key_of(discovered(docs, j), c)),
    ensures
        discovered_prefix_ok(docs, j, c + 1),
{
    reveal(discovered_prefix_ok);
    reveal(keys_of_seen);
    assert forall|q: int, c1: int, p: int, d: int|
        clause_seen(docs, j, c + 1, q, c1) && clause_seen(docs, j, c + 1, p, d) && key_before(q, c1, p, d)
            implies #[trigger] clause_key_of(discovered(docs, q), c1) != #[trigger] clause_key_of(discovered(docs, p), d) by {
        if p == j && d == c {
            assert(clause_seen(docs, j, c, q, c1));
            if clause_key_of(discovered(docs, q), c1) == clause_key_of(discovered(docs, j), c) {
                assert(set_has(keys, clause_key_of(discovered(docs, q), c1)));
            }
        } else {
            assert(clause_seen(docs, j, c, q, c1) && clause_seen(docs, j, c, p, d));
        }
    };
}

proof fn lemma_duplicate_key(docs: Seq<(String, String)>, j: int, c: int, keys: Seq<String>)
    requires
        0 <= j < docs.len(),
        0 <= c < discovered(docs, j).clauses.len(),
        keys_of_seen(docs, keys, j, c),
        set_has(keys, clause_key_of(discovered(docs, j), c)),
    ensures
        !discovered_prefix_ok(docs, docs.len() as int, 0),
{
    reveal(discovered_prefix_ok);
    reveal(keys_of_seen);
    let t = choose|t: int| 0 <= t < keys.len() && #[trigger] keys[t]@ == clause_key_of(discovered(docs, j), c);
    assert(key_seen(docs, j, c, keys[t]@));
    let (q, d) = choose|q: int, d: int| clause_seen(docs, j, c, q, d) && keys[t]@ == #[trigger] clause_key_of(discovered(docs, q), d);
    assert(clause_seen(docs, docs.len() as int, 0, q, d));
    assert(clause_seen(docs, docs.len() as int, 0, j, c));
    assert(key_before(q, d, j, c));
}

proof fn lemma_duplicate_id(docs: Seq<(String, String)>, q: int, j: int)
    requires
        0 <= q < j < docs.len(),
        discovered(docs, q).id == discovered(docs, j).id,
    ensures
        !discovered_prefix_ok(docs, docs.len() as int, 0),
{
    reveal(discovered_prefix_ok);
}

proof fn lemma_invalid_id(docs: Seq<(String, String)>, j: int)
    requires
        0 <= j < docs.len(),
        !valid_id(discovered(docs, j).id),
    ensures
        !discovered_prefix_ok(docs, docs.len() as int, 0),
{
    reveal(discovered_prefix_ok);
}

proof fn lemma_keys_push(docs: Seq<(String, String)>, k0: Seq<String>, k1: Seq<String>, j: int, c: int)
    requires
        0 <= j < docs.len(),
        0 <= c < discovered(docs, j).clauses.len(),
        k1.len() == k0.len() + 1,
        forall|t: int| 0 <= t < k0.len() ==> k1[t] == k0[t],
        k1[k0.len() as int]@ == clause_key_of(discovered(docs, j), c),
        keys_of_seen(docs, k0, j, c),
    ensures
        keys_of_seen(docs, k1, j, c + 1),
{
    reveal(keys_of_seen);
    assert forall|t: int| 0 <= t < k1.len() implies key_seen(docs, j, c + 1, (#[trigger] k1[t])@) by {
        if t < k0.len() {
            assert(k1[t] == k0[t]);
            assert(key_seen(docs, j, c, k0[t]@));
            let (q, d) = choose|q: int, d: int| clause_seen(docs, j, c, q, d) && k0[t]@ == #[trigger] clause_key_of(discovered(docs, q), d);
            assert(clause_seen(docs, j, c + 1, q, d));
        } else {
            assert(clause_seen(docs, j, c + 1, j, c));
        }
    };
    assert forall|q: int, d: int| clause_seen(docs, j, c + 1, q, d) implies set_has(k1, #[trigger] clause_key_of(discovered(docs, q), d)) by {
        if q == j && d == c {
            assert(k1[k0.len() as int]@ == clause_key_of(discovered(docs, q), d));
        } else {
            assert(clause_seen(docs, j, c, q, d));
            assert(set_has(k0, clause_key_of(discovered(docs, q), d)));
            let t = choose|t: int| 0 <= t < k0.len() && #[trigger] k0[t]@ == clause_key_of(discovered(docs, q), d);
            assert(k1[t] == k0[t]);
        }
    };
}

proof fn lemma_seen_next(docs: Seq<(String, String)>, j: int, q: int, d: int)
    requires
        0 <= j < docs.len(),
    ensures
        clause_seen(docs, j + 1, 0, q, d) == clause_seen(docs, j, discovered(docs, j).clauses.len() as int, q, d),
{
}

proof fn lemma_next_document(docs: Seq<(String, String)>, keys: Seq<String>, j: int)
    requires
        0 <= j < docs.len(),
        discovered_prefix_ok(docs, j, discovered(docs, j).clauses.len() as int),
        keys_of_seen(docs, keys, j, discovered(docs, j).clauses.len() as int),
        valid_id(discovered(docs, j).id),
        forall|q: int| 0 <= q < j ==> discovered(docs, q).id != discovered(docs, j).id,
    ensures
        discovered_prefix_ok(docs, j + 1, 0),
        keys_of_seen(docs, keys, j + 1, 0),
{
    lemma_next_prefix(docs, j);
    lemma_next_keys(docs, keys, j);
}

#[verifier::rlimit(30)]
proof fn lemma_next_prefix(docs: Seq<(String, String)>, j: int)
    requires
        0 <= j < docs.len(),
        discovered_prefix_ok(docs, j, discovered(docs, j).clauses.len() as int),
        valid_id(discovered(docs, j).id),
        forall|q: int| 0 <= q < j ==> discovered(docs, q).id != discovered(docs, j).id,
    ensures
        discovered_prefix_ok(docs, j + 1, 0),
{
    reveal(discovered_prefix_ok);
    let n = discovered(docs, j).clauses.len() as int;
    assert forall|q: int, c: int, p: int, d: int|
        clause_seen(docs, j + 1, 0, q, c) && clause_seen(docs, j + 1, 0, p, d) && key_before(q, c, p, d)
            implies #[trigger] clause_key_of(discovered(docs, q), c) != #[trigger] clause_key_of(discovered(docs, p), d) by {
        lemma_seen_next(docs, j, q, c);
        lemma_seen_next(docs, j, p, d);
    };
}

#[verifier::rlimit(30)]
proof fn lemma_next_keys(docs: Seq<(String, String)>, keys: Seq<String>, j: int)
    requires
        0 <= j < docs.len(),
        keys_of_seen(docs, keys, j, discovered(docs, j).clauses.len() as int),
    ensures
        keys_of_seen(docs, keys, j + 1, 0),
{
    reveal(keys_of_seen);
    let n = discovered(docs, j).clauses.len() as int;
    assert forall|t: int| 0 <= t < keys.len() implies key_seen(docs, j + 1, 0, (#[trigger] keys[t])@) by {
        assert(key_seen(docs, j, n, keys[t]@));
        let (q, d) = choose|q: int, d: int| clause_seen(docs, j, n, q, d) && keys[t]@ == #[trigger] clause_key_of(discovered(docs, q), d);
        lemma_seen_next(docs, j, q, d);
        assert(clause_seen(docs, j + 1, 0, q, d));
    };
    assert forall|q: int, d: int| clause_seen(docs, j + 1, 0, q, d) implies set_has(keys, #[trigger] clause_key_of(discovered(docs, q), d)) by {
        lemma_seen_next(docs, j, q, d);
        assert(clause_seen(docs, j, n, q, d));
        assert(set_has(keys, clause_key_of(discovered(docs, q), d)));
    };
    assert(keys_of_seen(docs, keys, j + 1, 0));
}

/// Parses the ADR documents, checks their identifiers and fingerprints them after the
/// requirements file.
fn read_adrs(requirements: &[u8], documents: &Vec<(String, String)>) -> (r: Result<(Vec<Adr>, Vec<InputFingerprint>), Error>)
    ensures
        r is Ok <==> discovered_ok(documents@),
        r matches Ok((adrs, inputs)) ==> {
            &&& adrs@.len() == documents@.len()
            &&& inputs@.len() == documents@.len() + 1
            &&& inventory_fingerprint(inputs@[0], requirements@)
            &&& crate::document::parsed_as(documents@, adrs@)
            &&& forall|a: int, b: int| #![trigger adrs@[a], adrs@[b]] 0 <= a < b < adrs@.len() ==> adrs@[a].id@ != adrs@[b].id@
            &&& forall|a: int| 0 <= a < documents@.len() ==> (#[trigger] inputs@[a + 1]).source@ == "spec:"@ + documents@[a].0@
                && inputs@[a + 1].sha256@ == sha256_hex(vstd::utf8::encode_utf8(documents@[a].1@))
        },
{
    proof {
        reveal_strlit(":");
    }
    let mut inputs: Vec<InputFingerprint> = Vec::new();
    inputs.push(crate::evidence::fingerprint_bytes("spec:requirements.json", requirements));
    let mut adrs: Vec<Adr> = Vec::new();
    let mut ids: Vec<String> = Vec::new();
    let mut clause_keys: Vec<String> = Vec::new();
    let ghost docs = documents@;
    proof {
        reveal(discovered_prefix_ok);
        reveal(keys_of_seen);
    }
    let mut j: usize = 0;
    while j < documents.len()
        invariant
            j <= documents@.len(),
            docs == documents@,
            adrs@.len() == j,
            ids@.len() == j,
            inputs@.len() == j + 1,
            inventory_fingerprint(inputs@[0], requirements@),
            crate::document::parsed_as(documents@.take(j as int), adrs@),
            forall|q: int| 0 <= q < j ==> discovered(docs, q) == crate::document::adr_view(#[trigger] adrs@[q]),
            forall|q: int| 0 <= q < j ==> crate::document::adr_of((#[trigger] docs[q]).0@, docs[q].1@) is Some,
            forall|a: int| 0 <= a < j ==> (#[trigger] ids@[a])@ == adrs@[a].id@,
            forall|a: int, b: int| #![trigger adrs@[a], adrs@[b]] 0 <= a < b < j ==> adrs@[a].id@ != adrs@[b].id@,
            forall|a: int| 0 <= a < j ==> (#[trigger] inputs@[a + 1]).source@ == "spec:"@ + documents@[a].0@
                && inputs@[a + 1].sha256@ == sha256_hex(vstd::utf8::encode_utf8(documents@[a].1@)),
            discovered_prefix_ok(docs, j as int, 0),
            keys_of_seen(docs, clause_keys@, j as int, 0),
        decreases documents.len() - j,
    {
        let (path, text) = &documents[j];
        let adr = match crate::document::parse_adr(path.as_str(), text.as_str()) {
            Ok(a) => a,
            Err(e) => {
                proof {
                    assert(!(crate::document::adr_of(docs[j as int].0@, docs[j as int].1@) is Some));
                }
                return Err(e);
            },
        };
        let ghost v = crate::document::adr_view(adr);
        proof {
            assert(discovered(docs, j as int) == v);
        }
        if !valid_id_exec(adr.id.as_str()) || crate::keyed::contains_str(&ids, adr.id.as_str()) {
            proof {
                if valid_id(adr.id@) {
                    let a = choose|a: int| 0 <= a < ids@.len() && #[trigger] ids@[a]@ == adr.id@;
                    assert(discovered(docs, a).id == adrs@[a].id@);
                    lemma_duplicate_id(docs, a, j as int);
                } else {
                    lemma_invalid_id(docs, j as int);
                }
            }
            return Err(crate::adr::diag(path.as_str(), 1, 1, "invalid or duplicate discovered ADR ID"));
        }
        proof {
            assert forall|q: int| 0 <= q < j implies discovered(docs, q).id != v.id by {
                assert(ids@[q]@ == adrs@[q].id@);
                if discovered(docs, q).id == v.id {
                    assert(set_has(ids@, adr.id@));
                }
            };
        }
        let mut c: usize = 0;
        while c < adr.clauses.len()
            invariant
                c <= adr.clauses@.len(),
                docs == documents@,
                j < docs.len(),
                v == crate::document::adr_view(adr),
                discovered(docs, j as int) == v,
                discovered_prefix_ok(docs, j as int, c as int),
                keys_of_seen(docs, clause_keys@, j as int, c as int),
            decreases adr.clauses.len() - c,
        {
            let key = crate::text::cat3(adr.id.as_str(), ":", adr.clauses[c].id.as_str());
            proof {
                assert(v.clauses[c as int] == adr.clauses@[c as int]@);
                assert(key@ == clause_key_of(v, c as int));
            }
            if crate::keyed::contains_str(&clause_keys, key.as_str()) {
                proof {
                    lemma_duplicate_key(docs, j as int, c as int, clause_keys@);
                }
                return Err(crate::adr::diag(path.as_str(), adr.clauses[c].span.line, 1, "duplicate constraint ID"));
            }
            proof {
                lemma_prefix_extend(docs, j as int, c as int, clause_keys@);
            }
            let ghost k0 = clause_keys@;
            clause_keys.push(key);
            proof {
                lemma_keys_push(docs, k0, clause_keys@, j as int, c as int);
            }
            c = c + 1;
        }
        proof {
            lemma_next_document(docs, clause_keys@, j as int);
        }
        let name = crate::text::cat("spec:", path.as_str());
        let f = crate::evidence::fingerprint_bytes(name.as_str(), text.as_str().as_bytes());
        let ghost a0 = adrs@;
        let ghost i0 = ids@;
        let ghost f0 = inputs@;
        ids.push(own(adr.id.as_str()));
        adrs.push(adr);
        inputs.push(f);
        proof {
            assert forall|a: int, b: int| #![trigger adrs@[a], adrs@[b]] 0 <= a < b < j + 1 implies adrs@[a].id@ != adrs@[b].id@ by {
                if b == j {
                    assert(ids@[a]@ == adrs@[a].id@);
                    if adrs@[a].id@ == adrs@[b].id@ {
                        assert(set_has(i0, ids@[a]@));
                    }
                } else {
                    assert(adrs@[a] == a0[a] && adrs@[b] == a0[b]);
                }
            };
            assert forall|a: int| 0 <= a < j + 1 implies (#[trigger] ids@[a])@ == adrs@[a].id@ by {
                if a < j {
                    assert(ids@[a] == i0[a] && adrs@[a] == a0[a]);
                }
            };
            assert forall|a: int| 0 <= a < j + 1 implies (#[trigger] inputs@[a + 1]).source@ == "spec:"@ + documents@[a].0@
                && inputs@[a + 1].sha256@ == sha256_hex(vstd::utf8::encode_utf8(documents@[a].1@)) by {
                if a < j {
                    assert(inputs@[a + 1] == f0[a + 1]);
                }
            };
            assert forall|q: int| 0 <= q < j + 1 implies crate::document::adr_of((#[trigger] documents@.take(j + 1)[q]).0@, documents@.take(j + 1)[q].1@)
                == Some(crate::document::adr_view(adrs@[q])) by {
                if q < j {
                    assert(documents@.take(j as int)[q] == documents@.take(j + 1)[q]);
                    assert(adrs@[q] == a0[q]);
                }
            };
            assert forall|q: int| 0 <= q < j + 1 implies discovered(docs, q) == crate::document::adr_view(#[trigger] adrs@[q]) by {
                if q < j {
                    assert(adrs@[q] == a0[q]);
                }
            };
        }
        j = j + 1;
    }
    proof {
        assert(documents@.take(documents@.len() as int) =~= documents@);
        assert(crate::document::all_parse(docs));
    }
    Ok((adrs, inputs))
}

// ---------------------------------------------------------------------------
// Decisions and gaps, as text
// ---------------------------------------------------------------------------

/// A gap as text.
pub struct GapText {
    pub code: Seq<char>,
    pub decision: Seq<char>,
    pub requirement: Option<Seq<char>>,
    pub target: Option<Seq<char>>,
}

/// A decision record as text.
pub struct DecisionText {
    pub id: Seq<char>,
    pub source: Seq<char>,
    pub inventoried: bool,
    pub present: bool,
    pub status: Option<Status>,
    pub active: bool,
    pub inactive_reason: Option<Seq<char>>,
}

pub open spec fn opt_text(o: Option<String>) -> Option<Seq<char>> {
    match o {
        Some(s) => Some(s@),
        None => None,
    }
}

pub open spec fn opt_str_text(o: Option<&str>) -> Option<Seq<char>> {
    match o {
        Some(s) => Some(s@),
        None => None,
    }
}

pub open spec fn gap_text(g: Gap) -> GapText {
    GapText { code: g.code@, decision: g.decision@, requirement: opt_text(g.requirement), target: opt_text(g.target) }
}

pub open spec fn gap_texts(s: Seq<Gap>) -> Seq<GapText> {
    s.map_values(|g: Gap| gap_text(g))
}

pub open spec fn decision_text(d: DecisionInventory) -> DecisionText {
    DecisionText {
        id: d.id@,
        source: d.source@,
        inventoried: d.inventoried,
        present: d.present,
        status: d.status,
        active: d.active,
        inactive_reason: opt_text(d.inactive_reason),
    }
}

pub open spec fn decision_texts(s: Seq<DecisionInventory>) -> Seq<DecisionText> {
    s.map_values(|d: DecisionInventory| decision_text(d))
}

pub open spec fn gt(code: Seq<char>, decision: Seq<char>, requirement: Option<Seq<char>>, target: Option<Seq<char>>) -> GapText {
    GapText { code, decision, requirement, target }
}

/// Why an ADR is out of force.
pub open spec fn reason_text(status: Status) -> Seq<char> {
    match status {
        Status::Accepted => "superseded_by_accepted_adr"@,
        Status::Proposed => "proposed"@,
        Status::Deprecated => "deprecated"@,
        Status::Superseded => "superseded"@,
    }
}

/// The decision recorded for the ADR at `q`: its document as a spec identity,
/// whether the inventory lists it there, its status, and whether it is in force
/// (and if not, why).
pub open spec fn adr_decision_text(adrs: Seq<Adr>, docs: Seq<(String, String)>, inv: Inventory, active: Seq<Seq<char>>, q: int) -> DecisionText {
    let id = adrs[q].id@;
    let act = active.contains(id);
    DecisionText {
        id,
        source: "spec:"@ + docs[q].0@,
        inventoried: listed(inv, id, docs[q].0@),
        present: true,
        status: Some(adrs[q].status),
        active: act,
        inactive_reason: if act { None } else { Some(reason_text(adrs[q].status)) },
    }
}

/// The decisions of the first `k` ADRs.
pub open spec fn adr_decision_texts(adrs: Seq<Adr>, docs: Seq<(String, String)>, inv: Inventory, active: Seq<Seq<char>>, k: int) -> Seq<DecisionText>
    decreases k,
{
    if k <= 0 {
        Seq::empty()
    } else {
        adr_decision_texts(adrs, docs, inv, active, k - 1).push(adr_decision_text(adrs, docs, inv, active, k - 1))
    }
}

/// An `uninventoried_adr` gap for each of the first `k` ADRs that the inventory does
/// not list with its document's path.
pub open spec fn adr_gap_texts(adrs: Seq<Adr>, docs: Seq<(String, String)>, inv: Inventory, k: int) -> Seq<GapText>
    decreases k,
{
    if k <= 0 {
        Seq::empty()
    } else {
        adr_gap_texts(adrs, docs, inv, k - 1) + if listed(inv, adrs[k - 1].id@, docs[k - 1].0@) {
            Seq::empty()
        } else {
            seq![gt("uninventoried_adr"@, adrs[k - 1].id@, None, None)]
        }
    }
}

/// An ADR has the entry's identifier and lies at its source.
pub open spec fn entry_matches(e: DecisionEntry, adrs: Seq<Adr>, docs: Seq<(String, String)>) -> bool {
    exists|q: int| 0 <= q < adrs.len() && (#[trigger] adrs[q]).id@ == e.id@ && docs[q].0@ == e.source@
}

/// A document lies at the entry's source.
pub open spec fn entry_present(e: DecisionEntry, docs: Seq<(String, String)>) -> bool {
    exists|q: int| 0 <= q < docs.len() && (#[trigger] docs[q]).0@ == e.source@
}

/// An ADR has the entry's identifier.
pub open spec fn entry_found(e: DecisionEntry, adrs: Seq<Adr>) -> bool {
    exists|q: int| 0 <= q < adrs.len() && (#[trigger] adrs[q]).id@ == e.id@
}

/// The entry resolves to an ADR in force.
pub open spec fn entry_active(e: DecisionEntry, adrs: Seq<Adr>, docs: Seq<(String, String)>, active: Seq<Seq<char>>) -> bool {
    entry_matches(e, adrs, docs) && active.contains(e.id@)
}

pub open spec fn has_normative(e: DecisionEntry) -> bool {
    exists|r: int| 0 <= r < e.requirements@.len() && (#[trigger] e.requirements@[r]).kind == RequirementKind::Normative
}

/// The gaps of an entry before its requirements: an unresolved entry (its source
/// is present or its identifier known, or neither), and an ADR in force without a
/// normative requirement.
pub open spec fn head_gap_texts(e: DecisionEntry, adrs: Seq<Adr>, docs: Seq<(String, String)>, active: Seq<Seq<char>>) -> Seq<GapText> {
    (if entry_matches(e, adrs, docs) {
        Seq::empty()
    } else {
        seq![gt(if entry_present(e, docs) || entry_found(e, adrs) { "adr_source_mismatch"@ } else { "missing_adr"@ }, e.id@, None, Some(e.source@))]
    }) + (if entry_active(e, adrs, docs, active) && !has_normative(e) {
        seq![gt("no_normative_requirements"@, e.id@, None, None)]
    } else {
        Seq::empty()
    })
}

/// A `missing_active_constraint` gap for each of the first `t` targets of `req` that
/// the model lacks, when the entry is in force.
pub open spec fn target_gap_texts(e: DecisionEntry, req: RequirementEntry, act: bool, m: ProjectModel, t: int) -> Seq<GapText>
    decreases t,
{
    if t <= 0 {
        Seq::empty()
    } else {
        target_gap_texts(e, req, act, m, t - 1) + if act && !crate::keyed::has_key(m.constraints@, req.constraints@[t - 1]@) {
            seq![gt("missing_active_constraint"@, e.id@, Some(req.id@), Some(req.constraints@[t - 1]@))]
        } else {
            Seq::empty()
        }
    }
}

/// An unmapped or partially mapped normative requirement of an entry in force.
pub open spec fn mapping_gap_texts(e: DecisionEntry, req: RequirementEntry, act: bool) -> Seq<GapText> {
    if act && req.kind == RequirementKind::Normative {
        match req.mapping {
            DeclaredMapping::Unmapped => seq![gt("unmapped_requirement"@, e.id@, Some(req.id@), None)],
            DeclaredMapping::Partial => seq![gt("partial_mapping"@, e.id@, Some(req.id@), None)],
            DeclaredMapping::Mapped => Seq::empty(),
        }
    } else {
        Seq::empty()
    }
}

pub open spec fn req_gap_texts(e: DecisionEntry, req: RequirementEntry, act: bool, m: ProjectModel) -> Seq<GapText> {
    target_gap_texts(e, req, act, m, req.constraints@.len() as int) + mapping_gap_texts(e, req, act)
}

/// The gaps of the first `r` requirements of an entry.
pub open spec fn reqs_gap_texts(e: DecisionEntry, act: bool, m: ProjectModel, r: int) -> Seq<GapText>
    decreases r,
{
    if r <= 0 {
        Seq::empty()
    } else {
        reqs_gap_texts(e, act, m, r - 1) + req_gap_texts(e, e.requirements@[r - 1], act, m)
    }
}

pub open spec fn entry_gap_texts(e: DecisionEntry, adrs: Seq<Adr>, docs: Seq<(String, String)>, active: Seq<Seq<char>>, m: ProjectModel) -> Seq<GapText> {
    head_gap_texts(e, adrs, docs, active)
        + reqs_gap_texts(e, entry_active(e, adrs, docs, active), m, e.requirements@.len() as int)
}

/// The gaps of the first `n` inventory entries, entry by entry.
pub open spec fn entries_gap_texts(inv: Inventory, adrs: Seq<Adr>, docs: Seq<(String, String)>, active: Seq<Seq<char>>, m: ProjectModel, n: int) -> Seq<GapText>
    decreases n,
{
    if n <= 0 {
        Seq::empty()
    } else {
        entries_gap_texts(inv, adrs, docs, active, m, n - 1) + entry_gap_texts(inv.adrs@[n - 1], adrs, docs, active, m)
    }
}

/// The decision recorded for an unresolved entry.
pub open spec fn entry_decision_texts(e: DecisionEntry, adrs: Seq<Adr>, docs: Seq<(String, String)>) -> Seq<DecisionText> {
    if entry_matches(e, adrs, docs) {
        Seq::empty()
    } else {
        seq![DecisionText {
            id: e.id@,
            source: "spec:"@ + e.source@,
            inventoried: true,
            present: entry_present(e, docs),
            status: None,
            active: false,
            inactive_reason: Some("unresolved_inventory_entry"@),
        }]
    }
}

pub open spec fn entries_decision_texts(inv: Inventory, adrs: Seq<Adr>, docs: Seq<(String, String)>, n: int) -> Seq<DecisionText>
    decreases n,
{
    if n <= 0 {
        Seq::empty()
    } else {
        entries_decision_texts(inv, adrs, docs, n - 1) + entry_decision_texts(inv.adrs@[n - 1], adrs, docs)
    }
}

/// Every gap the inventory leaves open: the unlisted ADRs, then each entry's gaps.
pub open spec fn all_gap_texts(inv: Inventory, adrs: Seq<Adr>, docs: Seq<(String, String)>, active: Seq<Seq<char>>, m: ProjectModel) -> Seq<GapText> {
    adr_gap_texts(adrs, docs, inv, adrs.len() as int) + entries_gap_texts(inv, adrs, docs, active, m, inv.adrs@.len() as int)
}

/// Every decision recorded: one per ADR, then one per unresolved entry.
pub open spec fn all_decision_texts(inv: Inventory, adrs: Seq<Adr>, docs: Seq<(String, String)>, active: Seq<Seq<char>>) -> Seq<DecisionText> {
    adr_decision_texts(adrs, docs, inv, active, adrs.len() as int) + entries_decision_texts(inv, adrs, docs, inv.adrs@.len() as int)
}

proof fn lemma_has_text(v: Seq<String>, x: Seq<char>)
    ensures
        crate::keyed::set_has(v, x) <==> strs(v).contains(x),
{
    if crate::keyed::set_has(v, x) {
        let i = choose|i: int| 0 <= i < v.len() && #[trigger] v[i]@ == x;
        assert(strs(v)[i] == x);
    }
    if strs(v).contains(x) {
        let i = choose|i: int| 0 <= i < strs(v).len() && strs(v)[i] == x;
        assert(v[i]@ == x);
    }
}

fn push_gap(gaps: &mut Vec<Gap>, g: Gap)
    ensures
        gap_texts(final(gaps)@) == gap_texts(old(gaps)@).push(gap_text(g)),
{
    gaps.push(g);
    proof {
        assert(gap_texts(gaps@) =~= gap_texts(old(gaps)@).push(gap_text(g)));
    }
}

/// One decision per ADR, and an `uninventoried_adr` gap for each ADR the inventory
/// does not list with its document's path.
fn decision_gaps(
    adrs: &Vec<Adr>,
    documents: &Vec<(String, String)>,
    active_adrs: &Vec<String>,
    inventory: &Inventory,
) -> (r: (Vec<DecisionInventory>, Vec<Gap>))
    requires
        adrs@.len() == documents@.len(),
    ensures
        decision_texts(r.0@) == adr_decision_texts(adrs@, documents@, *inventory, strs(active_adrs@), adrs@.len() as int),
        gap_texts(r.1@) == adr_gap_texts(adrs@, documents@, *inventory, adrs@.len() as int),
{
    proof {
        reveal_strlit("spec:");
    }
    let mut decisions: Vec<DecisionInventory> = Vec::new();
    let mut gaps: Vec<Gap> = Vec::new();
    let mut k: usize = 0;
    while k < adrs.len()
        invariant
            k <= adrs@.len(),
            adrs@.len() == documents@.len(),
            decision_texts(decisions@) == adr_decision_texts(adrs@, documents@, *inventory, strs(active_adrs@), k as int),
            gap_texts(gaps@) == adr_gap_texts(adrs@, documents@, *inventory, k as int),
        decreases adrs.len() - k,
    {
        let adr = &adrs[k];
        let path = &documents[k].0;
        let active = crate::keyed::contains_str(active_adrs, adr.id.as_str());
        proof {
            lemma_has_text(active_adrs@, adr.id@);
        }
        let inventoried = listed_exec(inventory, adr.id.as_str(), path.as_str());
        let reason = if active {
            None
        } else {
            Some(inactive_reason(adr.status))
        };
        let d = DecisionInventory {
            id: own(adr.id.as_str()),
            source: crate::text::cat("spec:", path.as_str()),
            inventoried,
            present: true,
            status: Some(adr.status),
            active,
            inactive_reason: reason,
        };
        proof {
            assert(decision_text(d) == adr_decision_text(adrs@, documents@, *inventory, strs(active_adrs@), k as int));
        }
        let ghost d0 = decisions@;
        decisions.push(d);
        proof {
            assert(decision_texts(decisions@) =~= decision_texts(d0).push(decision_text(d)));
        }
        if !inventoried {
            let g = gap("uninventoried_adr", adr.id.as_str(), None, None);
            push_gap(&mut gaps, g);
            proof {
                assert(seq![gap_text(g)] =~= seq![gt("uninventoried_adr"@, adrs@[k as int].id@, None, None)]);
                assert(gap_texts(gaps@) =~= adr_gap_texts(adrs@, documents@, *inventory, k + 1));
            }
        } else {
            proof {
                assert(gap_texts(gaps@) =~= adr_gap_texts(adrs@, documents@, *inventory, k + 1));
            }
        }
        k = k + 1;
    }
    (decisions, gaps)
}

/// The text selection of requirement `r` of entry `e`, read in document `d` when it
/// is the entry's source and the selection is a line range, is within the document
/// and not blank.
pub open spec fn selection_checked(inv: Inventory, docs: Seq<(String, String)>, e: int, r: int, d: int) -> bool {
    let entry = inv.adrs@[e];
    let req = entry.requirements@[r];
    (docs[d].0@ == entry.source@ && 1 <= req.start_line && req.start_line <= req.end_line)
        ==> selection_ok(crate::document::lines_from(docs[d].1@, 0), req.start_line as int, req.end_line as int)
}

pub open spec fn entries_checked(inv: Inventory, docs: Seq<(String, String)>, e: int) -> bool {
    forall|e2: int, r: int, d: int| 0 <= e2 < e && 0 <= r < inv.adrs@[e2].requirements@.len() && 0 <= d < docs.len()
        ==> #[trigger] selection_checked(inv, docs, e2, r, d)
}

pub open spec fn reqs_checked(inv: Inventory, docs: Seq<(String, String)>, e: int, r: int) -> bool {
    forall|r2: int, d: int| 0 <= r2 < r && 0 <= d < docs.len() ==> #[trigger] selection_checked(inv, docs, e, r2, d)
}

/// Every requirement's text selection, in each document that is its entry's
/// source, is within the document and not blank.
pub open spec fn selections_ok(inv: Inventory, docs: Seq<(String, String)>) -> bool {
    entries_checked(inv, docs, inv.adrs@.len() as int)
}

/// Fails on an empty or out-of-range text selection of a requirement whose
/// document is present, for the first such requirement in inventory order.
fn check_selections(inventory: &Inventory, documents: &Vec<(String, String)>) -> (r: Result<(), Error>)
    ensures
        r is Ok <==> selections_ok(*inventory, documents@),
{
    let mut e: usize = 0;
    while e < inventory.adrs.len()
        invariant
            e <= inventory.adrs@.len(),
            entries_checked(*inventory, documents@, e as int),
        decreases inventory.adrs.len() - e,
    {
        let entry = &inventory.adrs[e];
        let mut r: usize = 0;
        while r < entry.requirements.len()
            invariant
                r <= entry.requirements@.len(),
                e < inventory.adrs@.len(),
                *entry == inventory.adrs@[e as int],
                entries_checked(*inventory, documents@, e as int),
                reqs_checked(*inventory, documents@, e as int, r as int),
            decreases entry.requirements.len() - r,
        {
            let req = &entry.requirements[r];
            let mut d: usize = 0;
            while d < documents.len()
                invariant
                    d <= documents@.len(),
                    e < inventory.adrs@.len(),
                    r < entry.requirements@.len(),
                    *entry == inventory.adrs@[e as int],
                    *req == entry.requirements@[r as int],
                    forall|d2: int| 0 <= d2 < d ==> #[trigger] selection_checked(*inventory, documents@, e as int, r as int, d2),
                decreases documents.len() - d,
            {
                if str_eq(documents[d].0.as_str(), entry.source.as_str()) && req.start_line >= 1 && req.start_line <= req.end_line {
                    if !selection_exec(documents[d].1.as_str(), req.start_line, req.end_line) {
                        proof {
                            assert(!selection_checked(*inventory, documents@, e as int, r as int, d as int));
                        }
                        let m = crate::text::cat("invalid or empty text selection for ", req.id.as_str());
                        return Err(inventory_error(m.as_str()));
                    }
                }
                proof {
                    assert(selection_checked(*inventory, documents@, e as int, r as int, d as int));
                }
                d = d + 1;
            }
            proof {
                assert forall|r2: int, d2: int| 0 <= r2 < r + 1 && 0 <= d2 < documents@.len()
                    implies #[trigger] selection_checked(*inventory, documents@, e as int, r2, d2) by {
                    if r2 < r {
                        assert(reqs_checked(*inventory, documents@, e as int, r as int));
                    }
                };
            }
            r = r + 1;
        }
        proof {
            assert forall|e2: int, r2: int, d2: int| 0 <= e2 < e + 1 && 0 <= r2 < inventory.adrs@[e2].requirements@.len() && 0 <= d2 < documents@.len()
                implies #[trigger] selection_checked(*inventory, documents@, e2, r2, d2) by {
                if e2 < e {
                    assert(entries_checked(*inventory, documents@, e as int));
                } else {
                    assert(reqs_checked(*inventory, documents@, e as int, r as int));
                }
            };
        }
        e = e + 1;
    }
    Ok(())
}

/// Whether an entry resolves to an ADR at its source, whether its source is
/// present, and whether its identifier is known.
fn entry_state(entry: &DecisionEntry, adrs: &Vec<Adr>, documents: &Vec<(String, String)>) -> (r: (bool, bool, bool))
    requires
        adrs@.len() == documents@.len(),
    ensures
        r.0 == entry_matches(*entry, adrs@, documents@),
        r.1 == entry_present(*entry, documents@),
        r.2 == entry_found(*entry, adrs@),
{
    let mut matches = false;
    let mut present = false;
    let mut found = false;
    let mut q: usize = 0;
    while q < adrs.len()
        invariant
            q <= adrs@.len(),
            adrs@.len() == documents@.len(),
            matches == exists|q2: int| 0 <= q2 < q && (#[trigger] adrs@[q2]).id@ == entry.id@ && documents@[q2].0@ == entry.source@,
            present == exists|q2: int| 0 <= q2 < q && (#[trigger] documents@[q2]).0@ == entry.source@,
            found == exists|q2: int| 0 <= q2 < q && (#[trigger] adrs@[q2]).id@ == entry.id@,
        decreases adrs.len() - q,
    {
        let same_id = str_eq(adrs[q].id.as_str(), entry.id.as_str());
        let same_source = str_eq(documents[q].0.as_str(), entry.source.as_str());
        if same_id && same_source {
            matches = true;
        }
        if same_source {
            present = true;
        }
        if same_id {
            found = true;
        }
        q = q + 1;
    }
    (matches, present, found)
}

fn normative_exec(entry: &DecisionEntry) -> (r: bool)
    ensures
        r == has_normative(*entry),
{
    let mut x: usize = 0;
    while x < entry.requirements.len()
        invariant
            x <= entry.requirements@.len(),
            forall|x2: int| 0 <= x2 < x ==> (#[trigger] entry.requirements@[x2]).kind != RequirementKind::Normative,
        decreases entry.requirements.len() - x,
    {
        if entry.requirements[x].kind == RequirementKind::Normative {
            return true;
        }
        x = x + 1;
    }
    false
}

/// Adds the gaps of one requirement: its missing targets, then its mapping.
fn requirement_gaps(entry: &DecisionEntry, req: &RequirementEntry, act: bool, model: &ProjectModel, gaps: &mut Vec<Gap>)
    ensures
        gap_texts(final(gaps)@) == gap_texts(old(gaps)@) + req_gap_texts(*entry, *req, act, *model),
{
    let ghost g0 = gap_texts(gaps@);
    let mut t: usize = 0;
    while t < req.constraints.len()
        invariant
            t <= req.constraints@.len(),
            gap_texts(gaps@) == g0 + target_gap_texts(*entry, *req, act, *model, t as int),
        decreases req.constraints.len() - t,
    {
        let target = req.constraints[t].as_str();
        let known = crate::keyed::find_key(&model.constraints, target).is_some();
        if !known && act {
            let g = gap("missing_active_constraint", entry.id.as_str(), Some(req.id.as_str()), Some(target));
            push_gap(gaps, g);
            proof {
                assert(gap_text(g) == gt("missing_active_constraint"@, entry.id@, Some(req.id@), Some(req.constraints@[t as int]@)));
                assert(gap_texts(gaps@) =~= g0 + target_gap_texts(*entry, *req, act, *model, t + 1));
            }
        } else {
            proof {
                if !act || !known {
                } else {
                    assert(crate::keyed::has_key(model.constraints@, req.constraints@[t as int]@));
                }
                assert(gap_texts(gaps@) =~= g0 + target_gap_texts(*entry, *req, act, *model, t + 1));
            }
        }
        t = t + 1;
    }
    let ghost g1 = gap_texts(gaps@);
    if act && req.kind == RequirementKind::Normative {
        match req.mapping {
            DeclaredMapping::Unmapped => {
                let g = gap("unmapped_requirement", entry.id.as_str(), Some(req.id.as_str()), None);
                push_gap(gaps, g);
            },
            DeclaredMapping::Partial => {
                let g = gap("partial_mapping", entry.id.as_str(), Some(req.id.as_str()), None);
                push_gap(gaps, g);
            },
            DeclaredMapping::Mapped => {},
        }
    }
    proof {
        assert(gap_texts(gaps@) =~= g1 + mapping_gap_texts(*entry, *req, act));
        assert(gap_texts(gaps@) =~= g0 + req_gap_texts(*entry, *req, act, *model));
    }
}

/// Adds the decisions and gaps of each inventory entry: unresolved entries, entries
/// in force with no normative requirement, missing targets of entries in force, and
/// unmapped or partially mapped normative requirements of entries in force.
fn entry_gaps(
    inventory: &Inventory,
    adrs: &Vec<Adr>,
    documents: &Vec<(String, String)>,
    active_adrs: &Vec<String>,
    model: &ProjectModel,
    decisions: &mut Vec<DecisionInventory>,
    gaps: &mut Vec<Gap>,
)
    requires
        adrs@.len() == documents@.len(),
    ensures
        gap_texts(final(gaps)@) == gap_texts(old(gaps)@)
            + entries_gap_texts(*inventory, adrs@, documents@, strs(active_adrs@), *model, inventory.adrs@.len() as int),
        decision_texts(final(decisions)@) == decision_texts(old(decisions)@)
            + entries_decision_texts(*inventory, adrs@, documents@, inventory.adrs@.len() as int),
{
    proof {
        reveal_strlit("spec:");
    }
    let ghost g0 = gap_texts(gaps@);
    let ghost d0 = decision_texts(decisions@);
    let ghost act_texts = strs(active_adrs@);
    let mut e: usize = 0;
    while e < inventory.adrs.len()
        invariant
            e <= inventory.adrs@.len(),
            adrs@.len() == documents@.len(),
            act_texts == strs(active_adrs@),
            gap_texts(gaps@) == g0 + entries_gap_texts(*inventory, adrs@, documents@, act_texts, *model, e as int),
            decision_texts(decisions@) == d0 + entries_decision_texts(*inventory, adrs@, documents@, e as int),
        decreases inventory.adrs.len() - e,
    {
        let entry = &inventory.adrs[e];
        let ghost eg = gap_texts(gaps@);
        let ghost ed = decision_texts(decisions@);
        let (matches, present, found) = entry_state(entry, adrs, documents);
        if !matches {
            let code = if present || found { "adr_source_mismatch" } else { "missing_adr" };
            let g = gap(code, entry.id.as_str(), None, Some(entry.source.as_str()));
            push_gap(gaps, g);
            let d = DecisionInventory {
                id: own(entry.id.as_str()),
                source: crate::text::cat("spec:", entry.source.as_str()),
                inventoried: true,
                present,
                status: None,
                active: false,
                inactive_reason: Some(own("unresolved_inventory_entry")),
            };
            let ghost dv = decisions@;
            decisions.push(d);
            proof {
                assert(decision_texts(decisions@) =~= decision_texts(dv).push(decision_text(d)));
            }
        }
        let active = matches && crate::keyed::contains_str(active_adrs, entry.id.as_str());
        proof {
            lemma_has_text(active_adrs@, entry.id@);
            assert(active == entry_active(*entry, adrs@, documents@, act_texts));
        }
        let normative = normative_exec(entry);
        if active && !normative {
            let g = gap("no_normative_requirements", entry.id.as_str(), None, None);
            push_gap(gaps, g);
        }
        proof {
            assert(gap_texts(gaps@) =~= eg + head_gap_texts(*entry, adrs@, documents@, act_texts));
            assert(decision_texts(decisions@) =~= ed + entry_decision_texts(*entry, adrs@, documents@));
        }
        let ghost eh = gap_texts(gaps@);
        let mut r: usize = 0;
        while r < entry.requirements.len()
            invariant
                r <= entry.requirements@.len(),
                gap_texts(gaps@) == eh + reqs_gap_texts(*entry, active, *model, r as int),
            decreases entry.requirements.len() - r,
        {
            requirement_gaps(entry, &entry.requirements[r], active, model, gaps);
            proof {
                assert(gap_texts(gaps@) =~= eh + reqs_gap_texts(*entry, active, *model, r + 1));
            }
            r = r + 1;
        }
        proof {
            assert(entry == inventory.adrs@[e as int]);
            assert(gap_texts(gaps@) =~= g0 + entries_gap_texts(*inventory, adrs@, documents@, act_texts, *model, e + 1));
            assert(decision_texts(decisions@) =~= d0 + entries_decision_texts(*inventory, adrs@, documents@, e + 1));
        }
        e = e + 1;
    }
}

/// The fingerprints hold that of the inventory and, for each document, that of its
/// text under `spec:` and its path.
#[verifier::opaque]
pub open spec fn inputs_recorded(s: Seq<InputFingerprint>, requirements: Seq<u8>, documents: Seq<(String, String)>) -> bool {
    &&& exists|i: int| 0 <= i < s.len() && inventory_fingerprint(#[trigger] s[i], requirements)
    &&& forall|j: int| 0 <= j < documents.len() ==> exists|i: int| 0 <= i < s.len()
        && (#[trigger] s[i]).source@ == "spec:"@ + (#[trigger] documents[j]).0@
        && s[i].sha256@ == sha256_hex(vstd::utf8::encode_utf8(documents[j].1@))
}

proof fn lemma_kept<A>(a: Seq<A>, b: Seq<A>, x: A)
    requires
        a.to_multiset() == b.to_multiset(),
        a.contains(x),
    ensures
        b.contains(x),
{
    vstd::seq_lib::to_multiset_contains(a, x);
    vstd::seq_lib::to_multiset_contains(b, x);
}

/// What `inspect` needs to succeed: a valid inventory, documents that hold ADRs with
/// valid and distinct identifiers and distinct constraint identifiers, ADRs that form
/// an effective specification, and text selections within their documents.
pub open spec fn inspectable(inventory: Inventory, documents: Seq<(String, String)>) -> bool {
    &&& inventory_valid(inventory)
    &&& discovered_ok(documents)
    &&& crate::assembly::loads(documents)
    &&& selections_ok(inventory, documents)
}

/// Inspects a specification checkout: the bytes of its `requirements.json`, the
/// inventory they hold, and its ADR documents as (relative path, text) in path
/// order. Fails when the inventory is malformed, a document does not parse, an ADR
/// identifier is invalid or repeated, a constraint identifier repeats, the ADRs do
/// not form an effective specification, or a requirement's text selection is empty.
/// Otherwise records the decisions, the gaps and the input fingerprints; nothing is
/// reviewed or verified.
pub fn inspect(requirements: &[u8], inventory: &Inventory, documents: &Vec<(String, String)>, spec_root: &str) -> (r: Result<InventoryReport, Error>)
    ensures
        r is Ok <==> inspectable(*inventory, documents@),
        !inventory_valid(*inventory) ==> r is Err,
        r matches Ok(rep) ==> {
            &&& rep.schema_version@ == "adrproof-inventory-report-v1alpha1"@
            &&& rep.review_status@ == "NOT_ASSESSED"@
            &&& rep.verification_status@ == "NOT_RUN"@
            &&& rep.result@ == if rep.gaps@.len() > 0 { "INCOMPLETE"@ } else { "RECORDED_UNREVIEWED"@ }
            &&& sorted_le(rep.gaps@)
            &&& sorted_le(rep.decisions@)
            &&& sorted_le(rep.inputs@)
            &&& rep.inputs@.len() == documents@.len() + 1
            &&& inputs_recorded(rep.inputs@, requirements@, documents@)
            &&& exists|adrs: Seq<Adr>, s: EffectiveSpecification, m: ProjectModel|
                #[trigger] crate::document::parsed_as(documents@, adrs)
                && #[trigger] crate::effective::effective_of(adrs, false, s)
                && #[trigger] crate::lowering::lowered(adrs, s, m)
                && crate::loading::namespaced(m, rep.model, "spec"@, spec_root@)
                && gap_texts(rep.gaps@).to_multiset()
                    == all_gap_texts(*inventory, adrs, documents@, strs(s.active_adrs@), rep.model).to_multiset()
                && decision_texts(rep.decisions@).to_multiset()
                    == all_decision_texts(*inventory, adrs, documents@, strs(s.active_adrs@)).to_multiset()
        },
{
    match validate(inventory) {
        Ok(()) => {},
        Err(e) => return Err(e),
    }
    let (adrs, inputs) = match read_adrs(requirements, documents) {
        Ok(x) => x,
        Err(e) => return Err(e),
    };
    let ghost av = adrs@;
    let spec = match crate::effective::effective(&adrs, false) {
        Ok(s) => s,
        Err(e) => {
            proof {
                assert(!crate::assembly::assembles(av));
                assert(!crate::assembly::loads(documents@));
            }
            return Err(e);
        },
    };
    proof {
        assert forall|b: Seq<Adr>| #[trigger] crate::document::parsed_as(documents@, b) implies crate::assembly::assembles(b) by {
            crate::assembly::lemma_parsed_same(documents@, av, b);
            crate::assembly::lemma_assembles_views(av, b);
        };
    }
    match check_selections(inventory, documents) {
        Ok(()) => {},
        Err(e) => return Err(e),
    }
    let mut model = crate::lowering::lower_to_project_model(&adrs, &spec);
    let ghost m0 = model;
    crate::loading::namespace_model_artifacts(&mut model, "spec", spec_root);
    let ghost unsorted_inputs = inputs@;
    let inputs = crate::sorting::sort_stable(inputs);
    proof {
        lemma_inputs_kept(unsorted_inputs, inputs@, requirements@, documents@);
    }
    let (mut decisions, mut gaps) = decision_gaps(&adrs, documents, &spec.active_adrs, inventory);
    entry_gaps(inventory, &adrs, documents, &spec.active_adrs, &model, &mut decisions, &mut gaps);
    let ghost unsorted = gaps@;
    let ghost unsorted_decisions = decisions@;
    let decisions = crate::sorting::sort_stable(decisions);
    let gaps = crate::sorting::sort_stable(gaps);
    proof {
        lemma_map_multiset(unsorted, gaps@, |g: Gap| gap_text(g));
        lemma_map_multiset(unsorted_decisions, decisions@, |d: DecisionInventory| decision_text(d));
        let act = strs(spec.active_adrs@);
        assert(gap_texts(unsorted) =~= all_gap_texts(*inventory, av, documents@, act, model));
        assert(decision_texts(unsorted_decisions) =~= all_decision_texts(*inventory, av, documents@, act));
        assert(crate::document::parsed_as(documents@, av));
        assert(crate::effective::effective_of(av, false, spec));
        assert(crate::lowering::lowered(av, spec, m0));
    }
    let result = if gaps.len() > 0 {
        own("INCOMPLETE")
    } else {
        own("RECORDED_UNREVIEWED")
    };
    Ok(InventoryReport {
        schema_version: own("adrproof-inventory-report-v1alpha1"),
        result,
        review_status: own("NOT_ASSESSED"),
        verification_status: own("NOT_RUN"),
        decisions,
        gaps,
        inputs,
        model,
    })
}

proof fn lemma_inputs_kept(u: Seq<InputFingerprint>, s: Seq<InputFingerprint>, requirements: Seq<u8>, documents: Seq<(String, String)>)
    requires
        s.to_multiset() == u.to_multiset(),
        u.len() == documents.len() + 1,
        inventory_fingerprint(u[0], requirements),
        forall|a: int| 0 <= a < documents.len() ==> (#[trigger] u[a + 1]).source@ == "spec:"@ + documents[a].0@
            && u[a + 1].sha256@ == sha256_hex(vstd::utf8::encode_utf8(documents[a].1@)),
    ensures
        inputs_recorded(s, requirements, documents),
{
    reveal(inputs_recorded);
    assert(u.contains(u[0]));
    lemma_kept(u, s, u[0]);
    let i = choose|i: int| 0 <= i < s.len() && s[i] == u[0];
    assert(inventory_fingerprint(s[i], requirements));
    assert forall|q: int| 0 <= q < documents.len() implies exists|i: int| 0 <= i < s.len()
        && (#[trigger] s[i]).source@ == "spec:"@ + (#[trigger] documents[q]).0@
        && s[i].sha256@ == sha256_hex(vstd::utf8::encode_utf8(documents[q].1@)) by {
        assert(u.contains(u[q + 1]));
        lemma_kept(u, s, u[q + 1]);
        let i = choose|i: int| 0 <= i < s.len() && s[i] == u[q + 1];
        assert(s[i].source@ == "spec:"@ + documents[q].0@);
    };
}

} // verus!
