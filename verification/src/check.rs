//! Checking a proof obligation with a constraint backend and judging the outcome:
//! verdicts that rest on unclaimed absence are downgraded, unsat cores become
//! conflicts, and verdicts become evidence statuses.
use vstd::prelude::*;
use crate::adr::{Error, SExpr, strs};
use crate::evidence::VerificationStatus;
use crate::keyed::{Keyed, has_key, strictly_sorted};
use crate::lowering::{RelationalProofObligation, relational_obligation};
use crate::project::{
    CoverageScope, IntentConstraint, ProjectFact, ProjectModel, ProvenanceKind, SScope, SourceSpan,
    WorldAssumption, coverage_of,
};
use crate::sorting::{Ordered, sort_stable};
use crate::text::{cat, cat3, chars_of, find_char, first_index_of, own, seq_lt, slice_string, str_eq, str_lt, lemma_lt_asymmetric, lemma_lt_total, lemma_lt_transitive};

verus! {

/// What a constraint backend concluded.
#[derive(Debug, Clone, Copy, PartialEq, Eq, Structural)]
pub enum Verdict {
    Sat,
    Unsat,
    Unknown,
    Timeout,
    SolverFailure,
    InvalidInput,
    Unverified,
}

/// A backend's answer for one obligation.
#[derive(Debug)]
pub struct BackendResult {
    pub verdict: Verdict,
    pub core: Vec<String>,
    pub solver_version: String,
    pub elapsed_ms: u64,
    pub timeout_ms: u64,
}

/// Evidence produced by an external prover.
#[derive(Debug)]
pub struct ExternalEvidence {
    pub provider: String,
    pub version: String,
    pub status: Verdict,
    pub assumptions: Vec<String>,
    pub artifacts: Vec<String>,
}

/// A decides whether the constraints of an obligation can hold together; it may
/// write the problem it solved to `artifact`.
pub trait ConstraintBackend {
    fn check(&self, obligation: &RelationalProofObligation, artifact: &str) -> Result<BackendResult, Error>;
}

/// A source of facts about the code base.
pub trait CodeFactProvider {
    fn facts(&self) -> Result<Vec<ProjectFact>, Error>;
}

/// A prover for Rust code.
pub trait RustProofProvider {
    fn verify_rust(&self) -> Result<ExternalEvidence, Error>;
}

/// A prover for temporal properties.
pub trait TemporalProofProvider {
    fn verify_temporal(&self) -> Result<ExternalEvidence, Error>;
}

/// One element of an unsat core, located.
#[derive(Debug)]
pub struct Conflict {
    pub adr_id: String,
    pub clause_id: String,
    pub description: String,
    pub span: SourceSpan,
    pub origin_kind: ProvenanceKind,
}

/// The evidence status of a verdict.
pub open spec fn status_of(v: Verdict) -> VerificationStatus {
    match v {
        Verdict::Sat => VerificationStatus::Pass,
        Verdict::Unsat => VerificationStatus::Fail,
        Verdict::Unknown => VerificationStatus::Unknown,
        Verdict::Timeout => VerificationStatus::Unknown,
        Verdict::SolverFailure => VerificationStatus::Error,
        Verdict::InvalidInput => VerificationStatus::Error,
        Verdict::Unverified => VerificationStatus::Unverified,
    }
}

/// Satisfiable constraints pass; an unsat core fails; undecided, failed or
/// unverified checks keep that status.
pub fn status_of_verdict(v: Verdict) -> (r: VerificationStatus)
    ensures
        r == status_of(v),
{
    match v {
        Verdict::Sat => VerificationStatus::Pass,
        Verdict::Unsat => VerificationStatus::Fail,
        Verdict::Unknown | Verdict::Timeout => VerificationStatus::Unknown,
        Verdict::SolverFailure | Verdict::InvalidInput => VerificationStatus::Error,
        Verdict::Unverified => VerificationStatus::Unverified,
    }
}

// ---------------------------------------------------------------------------
// Absence that no completeness claim covers
// ---------------------------------------------------------------------------

/// The scope a relation atom is asked about: the whole project for an atom without
/// arguments or over a bound variable; else the package, schema, view or table its
/// first argument names.
pub open spec fn scope_for_atom(relation: Seq<char>, args: Seq<Seq<char>>, bound: Seq<Seq<char>>) -> SScope {
    if args.len() == 0 || bound.contains(args[0]) {
        SScope::Global
    } else if relation == "declares_direct_dependency"@ || relation == "package"@ || relation == "workspace_member"@ {
        SScope::Package(args[0])
    } else if relation == "schema"@ {
        SScope::Schema(args[0])
    } else if relation == "materialized_view"@ {
        SScope::MaterializedView(args[0])
    } else {
        SScope::Table(args[0])
    }
}

fn contains_text(v: &Vec<String>, x: &String) -> (r: bool)
    ensures
        r == strs(v@).contains(x@),
{
    let mut i: usize = 0;
    while i < v.len()
        invariant
            i <= v@.len(),
            forall|j: int| 0 <= j < i ==> v@[j]@ != x@,
        decreases v.len() - i,
    {
        if str_eq(v[i].as_str(), x.as_str()) {
            proof {
                assert(strs(v@)[i as int] == x@);
            }
            return true;
        }
        i = i + 1;
    }
    proof {
        if strs(v@).contains(x@) {
            let j = choose|j: int| 0 <= j < strs(v@).len() && strs(v@)[j] == x@;
            assert(v@[j]@ == x@);
        }
    }
    false
}

/// The coverage scope for a relation atom.
pub fn coverage_scope_for_atom(relation: &str, arguments: &Vec<String>, bound: &Vec<String>) -> (r: CoverageScope)
    ensures
        r@ == scope_for_atom(relation@, strs(arguments@), strs(bound@)),
{
    if arguments.len() == 0 {
        return CoverageScope::Global;
    }
    let subject = &arguments[0];
    proof {
        assert(strs(arguments@)[0] == subject@);
    }
    if contains_text(bound, subject) {
        return CoverageScope::Global;
    }
    if str_eq(relation, "declares_direct_dependency") || str_eq(relation, "package") || str_eq(relation, "workspace_member") {
        CoverageScope::Package(subject.clone())
    } else if str_eq(relation, "schema") {
        CoverageScope::Schema(subject.clone())
    } else if str_eq(relation, "materialized_view") {
        CoverageScope::MaterializedView(subject.clone())
    } else {
        CoverageScope::Table(subject.clone())
    }
}

/// Some true fact states exactly this atom.
pub open spec fn observed(m: ProjectModel, relation: Seq<char>, args: Seq<Seq<char>>) -> bool {
    exists|i: int|
        0 <= i < m.facts@.len() && (#[trigger] m.facts@[i]).relation@ == relation && strs(m.facts@[i].arguments@)
            == args && m.facts@[i].value
}

/// The formula depends on the absence of an atom that no fact states and no closed
/// completeness claim covers.
pub open spec fn uncovered(m: ProjectModel, f: SExpr, bound: Seq<Seq<char>>) -> bool
    decreases f,
{
    match f {
        SExpr::Call(relation, args) => !observed(m, relation, args) && coverage_of(
            m.fact_coverage@,
            relation,
            scope_for_atom(relation, args, bound),
        ) != Some(WorldAssumption::Closed),
        SExpr::Not(x) => uncovered(m, *x, bound),
        SExpr::And(a, b) => uncovered(m, *a, bound) || uncovered(m, *b, bound),
        SExpr::Or(a, b) => uncovered(m, *a, bound) || uncovered(m, *b, bound),
        SExpr::Implies(a, b) => uncovered(m, *a, bound) || uncovered(m, *b, bound),
        SExpr::Forall { var, guard, body, .. } => {
            ||| (guard matches Some(g) && uncovered(m, *g, bound.push(var)))
            ||| uncovered(m, *body, bound.push(var))
        },
        SExpr::Exists { var, guard, body, .. } => {
            ||| (guard matches Some(g) && uncovered(m, *g, bound.push(var)))
            ||| uncovered(m, *body, bound.push(var))
        },
        _ => false,
    }
}

pub(crate) fn same_strings(a: &Vec<String>, b: &Vec<String>) -> (r: bool)
    ensures
        r == (strs(a@) == strs(b@)),
{
    if a.len() != b.len() {
        return false;
    }
    let mut i: usize = 0;
    while i < a.len()
        invariant
            a@.len() == b@.len(),
            i <= a@.len(),
            forall|j: int| 0 <= j < i ==> a@[j]@ == b@[j]@,
        decreases a.len() - i,
    {
        if !str_eq(a[i].as_str(), b[i].as_str()) {
            proof {
                assert(strs(a@)[i as int] != strs(b@)[i as int]);
            }
            return false;
        }
        i = i + 1;
    }
    proof {
        assert(strs(a@) =~= strs(b@));
    }
    true
}

pub(crate) fn observed_exec(m: &ProjectModel, relation: &str, args: &Vec<String>) -> (r: bool)
    ensures
        r == observed(*m, relation@, strs(args@)),
{
    let mut i: usize = 0;
    while i < m.facts.len()
        invariant
            i <= m.facts@.len(),
            forall|j: int| 0 <= j < i ==> !((#[trigger] m.facts@[j]).relation@ == relation@ && strs(m.facts@[j].arguments@)
                == strs(args@) && m.facts@[j].value),
        decreases m.facts.len() - i,
    {
        let f = &m.facts[i];
        if str_eq(f.relation.as_str(), relation) && same_strings(&f.arguments, args) && f.value {
            return true;
        }
        i = i + 1;
    }
    false
}

pub(crate) fn uncovered_exec(m: &ProjectModel, f: &crate::project::RelationalFormula, bound: &mut Vec<String>) -> (r: bool)
    ensures
        r == uncovered(*m, f@, strs(old(bound)@)),
        final(bound)@ == old(bound)@,
    decreases f,
{
    match f {
        crate::project::RelationalFormula::Relation(relation, args) => {
            if observed_exec(m, relation.as_str(), args) {
                return false;
            }
            let scope = coverage_scope_for_atom(relation.as_str(), args, bound);
            match m.coverage_for(relation.as_str(), &scope) {
                Some(WorldAssumption::Closed) => false,
                _ => true,
            }
        },
        crate::project::RelationalFormula::Not(x) => uncovered_exec(m, x, bound),
        crate::project::RelationalFormula::And(a, b) | crate::project::RelationalFormula::Or(a, b)
        | crate::project::RelationalFormula::Implies(a, b) => {
            uncovered_exec(m, a, bound) || uncovered_exec(m, b, bound)
        },
        crate::project::RelationalFormula::Forall { variable, guard, body, .. }
        | crate::project::RelationalFormula::Exists { variable, guard, body, .. } => {
            let ghost b0 = bound@;
            bound.push(variable.clone());
            proof {
                assert(strs(bound@) =~= strs(b0).push(variable@));
            }
            let g = match guard {
                Some(g) => uncovered_exec(m, g, bound),
                None => false,
            };
            let r = g || uncovered_exec(m, body, bound);
            bound.pop();
            proof {
                assert(bound@ =~= b0);
            }
            r
        },
        _ => false,
    }
}

/// Whether `formula` depends on the absence of an atom that no fact states and no
/// closed completeness claim covers.
pub fn formula_requires_uncovered_absence(model: &ProjectModel, formula: &crate::project::RelationalFormula) -> (r: bool)
    ensures
        r == uncovered(*model, formula@, Seq::empty()),
{
    let mut bound: Vec<String> = Vec::new();
    proof {
        assert(strs(bound@) =~= Seq::<Seq<char>>::empty());
    }
    uncovered_exec(model, formula, &mut bound)
}

/// Some constraint of the model rests on uncovered absence.
pub open spec fn rests_on_uncovered(m: ProjectModel) -> bool {
    exists|i: int| 0 <= i < m.constraints@.len() && uncovered(m, (#[trigger] m.constraints@[i]).formula@, Seq::empty())
}

/// A decided verdict that rests on unclaimed absence is only `Unverified`.
pub open spec fn adjusted(m: ProjectModel, v: Verdict) -> Verdict {
    if rests_on_uncovered(m) && (v == Verdict::Sat || v == Verdict::Unsat) {
        Verdict::Unverified
    } else {
        v
    }
}

/// The verdict to report for a backend verdict on a model.
pub fn adjusted_verdict(model: &ProjectModel, verdict: Verdict) -> (r: Verdict)
    ensures
        r == adjusted(*model, verdict),
{
    let mut unsupported = false;
    let mut i: usize = 0;
    while i < model.constraints.len()
        invariant
            i <= model.constraints@.len(),
            unsupported == exists|j: int| 0 <= j < i && uncovered(*model, (#[trigger] model.constraints@[j]).formula@, Seq::empty()),
        decreases model.constraints.len() - i,
    {
        if formula_requires_uncovered_absence(model, &model.constraints[i].formula) {
            unsupported = true;
        }
        i = i + 1;
    }
    if unsupported && (verdict == Verdict::Sat || verdict == Verdict::Unsat) {
        Verdict::Unverified
    } else {
        verdict
    }
}


// ---------------------------------------------------------------------------
// Conflicts
// ---------------------------------------------------------------------------

/// The view of a conflict.
pub struct SConflict {
    pub adr_id: Seq<char>,
    pub clause_id: Seq<char>,
    pub description: Seq<char>,
    pub filename: Seq<char>,
    pub line: usize,
    pub column: usize,
    pub origin_kind: ProvenanceKind,
}

impl View for Conflict {
    type V = SConflict;

    open spec fn view(&self) -> SConflict {
        SConflict {
            adr_id: self.adr_id@,
            clause_id: self.clause_id@,
            description: self.description@,
            filename: self.span.filename@,
            line: self.span.line,
            column: self.span.column,
            origin_kind: self.origin_kind,
        }
    }
}

/// The part of `key` before its first `:` (all of it without one).
pub open spec fn key_head(key: Seq<char>) -> Seq<char> {
    match first_index_of(key, ':', 0, key.len() as int) {
        Some(i) => key.subrange(0, i),
        None => key,
    }
}

/// The part of `key` after its first `:` (empty without one).
pub open spec fn key_tail(key: Seq<char>) -> Seq<char> {
    match first_index_of(key, ':', 0, key.len() as int) {
        Some(i) => key.subrange(i + 1, key.len() as int),
        None => Seq::empty(),
    }
}

/// The items separated by `, `.
pub open spec fn comma_list(s: Seq<Seq<char>>) -> Seq<char>
    decreases s.len(),
{
    if s.len() == 0 {
        Seq::empty()
    } else if s.len() == 1 {
        s[0]
    } else {
        comma_list(s.drop_last()) + ", "@ + s.last()
    }
}

/// `not relation(a, b)` for a false fact, `relation(a, b)` for a true one.
pub open spec fn fact_text(f: ProjectFact) -> Seq<char> {
    (if f.value {
        Seq::empty()
    } else {
        "not "@
    }) + f.relation@ + "("@ + comma_list(strs(f.arguments@)) + ")"@
}

/// The conflict a core element names: a constraint (located at its span) or,
/// under `FACT:`, a fact (at its span, else line 1 of its source).
pub open spec fn conflict_of(key: Seq<char>, m: ProjectModel) -> Option<SConflict> {
    if has_key(m.constraints@, key) {
        let c = choose|c: IntentConstraint| #[trigger] m.constraints@.contains(c) && c.key() == key;
        match c.provenance.span {
            Some(span) => Some(
                SConflict {
                    adr_id: key_head(key),
                    clause_id: key_tail(key),
                    description: c.description@,
                    filename: span.filename@,
                    line: span.line,
                    column: span.column,
                    origin_kind: c.provenance.kind,
                },
            ),
            None => None,
        }
    } else if key.len() >= 5 && key.subrange(0, 5) == "FACT:"@ && has_key(m.facts@, key.subrange(5, key.len() as int)) {
        let f = choose|f: ProjectFact| #[trigger] m.facts@.contains(f) && f.key() == key.subrange(5, key.len() as int);
        Some(
            SConflict {
                adr_id: "CARGO"@,
                clause_id: f.id.0@,
                description: fact_text(f),
                filename: match f.provenance.span {
                    Some(span) => span.filename@,
                    None => f.provenance.source@,
                },
                line: match f.provenance.span {
                    Some(span) => span.line,
                    None => 1,
                },
                column: match f.provenance.span {
                    Some(span) => span.column,
                    None => 1,
                },
                origin_kind: f.provenance.kind,
            },
        )
    } else {
        None
    }
}

pub(crate) fn comma_list_exec(v: &Vec<String>) -> (r: String)
    ensures
        r@ == comma_list(strs(v@)),
{
    let mut r = String::new();
    let mut i: usize = 0;
    while i < v.len()
        invariant
            i <= v@.len(),
            r@ == comma_list(strs(v@.take(i as int))),
        decreases v.len() - i,
    {
        proof {
            assert(strs(v@.take(i + 1)).drop_last() =~= strs(v@.take(i as int)));
            assert(strs(v@.take(i + 1)).last() == v@[i as int]@);
        }
        if i == 0 {
            r = v[0].clone();
        } else {
            r.append(", ");
            r.append(v[i].as_str());
        }
        i = i + 1;
    }
    proof {
        assert(v@.take(v@.len() as int) =~= v@);
    }
    r
}

fn split_key(key: &str) -> (r: (String, String))
    ensures
        r.0@ == key_head(key@),
        r.1@ == key_tail(key@),
{
    let cs = chars_of(key);
    match find_char(&cs, ':', 0, cs.len()) {
        Some(i) => (slice_string(&cs, 0, i), slice_string(&cs, i + 1, cs.len())),
        None => (own(key), String::new()),
    }
}

/// The conflict that an element of an unsat core names, if it names one.
pub fn conflict_for_key(key: &str, model: &ProjectModel) -> (r: Option<Conflict>)
    requires
        strictly_sorted(model.constraints@),
        strictly_sorted(model.facts@),
    ensures
        match r {
            Some(c) => conflict_of(key@, *model) == Some(c@),
            None => conflict_of(key@, *model) is None,
        },
{
    match crate::keyed::find_key(&model.constraints, key) {
        Some(j) => {
            let c = &model.constraints[j];
            proof {
                assert(model.constraints@.contains(*c));
                let x = choose|x: IntentConstraint| #[trigger] model.constraints@.contains(x) && x.key() == key@;
                crate::keyed::lemma_sorted_unique_key(model.constraints@, x, *c);
            }
            match &c.provenance.span {
                Some(span) => {
                    let (head, tail) = split_key(key);
                    Some(Conflict {
                        adr_id: head,
                        clause_id: tail,
                        description: c.description.clone(),
                        span: span.clone(),
                        origin_kind: c.provenance.kind,
                    })
                },
                None => None,
            }
        },
        None => {
            let cs = chars_of(key);
            if !crate::text::starts_with(key, "FACT:") {
                proof {
                    reveal_strlit("FACT:");
                }
                return None;
            }
            proof {
                reveal_strlit("FACT:");
            }
            let rest = slice_string(&cs, 5, cs.len());
            match crate::keyed::find_key(&model.facts, rest.as_str()) {
                None => None,
                Some(j) => {
                    let f = &model.facts[j];
                    proof {
                        assert(model.facts@.contains(*f));
                        let x = choose|x: ProjectFact| #[trigger] model.facts@.contains(x) && x.key() == key@.subrange(5, key@.len() as int);
                        crate::keyed::lemma_sorted_unique_key(model.facts@, x, *f);
                    }
                    let args = comma_list_exec(&f.arguments);
                    let mut description = if f.value {
                        String::new()
                    } else {
                        own("not ")
                    };
                    description.append(f.relation.as_str());
                    description.append("(");
                    description.append(args.as_str());
                    description.append(")");
                    proof {
                        reveal_strlit("");
                    }
                    let span = match &f.provenance.span {
                        Some(s) => s.clone(),
                        None => SourceSpan { filename: f.provenance.source.clone(), line: 1, column: 1 },
                    };
                    Some(Conflict {
                        adr_id: own("CARGO"),
                        clause_id: f.id.0.clone(),
                        description,
                        span,
                        origin_kind: f.provenance.kind,
                    })
                },
            }
        },
    }
}


/// The declaration order of provenance kinds.
pub open spec fn kind_rank(k: ProvenanceKind) -> int {
    match k {
        ProvenanceKind::HumanAuthored => 0,
        ProvenanceKind::DeterministicallyExtracted => 1,
        ProvenanceKind::Authoritative => 2,
        ProvenanceKind::LlmDerived => 3,
    }
}

fn kind_rank_exec(k: ProvenanceKind) -> (r: u8)
    ensures
        r == kind_rank(k),
{
    match k {
        ProvenanceKind::HumanAuthored => 0,
        ProvenanceKind::DeterministicallyExtracted => 1,
        ProvenanceKind::Authoritative => 2,
        ProvenanceKind::LlmDerived => 3,
    }
}

/// Conflict order: ADR, clause, description, file, line, column, then origin.
pub open spec fn conflict_le(a: SConflict, b: SConflict) -> bool {
    if a.adr_id != b.adr_id {
        seq_lt(a.adr_id, b.adr_id)
    } else if a.clause_id != b.clause_id {
        seq_lt(a.clause_id, b.clause_id)
    } else if a.description != b.description {
        seq_lt(a.description, b.description)
    } else if a.filename != b.filename {
        seq_lt(a.filename, b.filename)
    } else if a.line != b.line {
        a.line < b.line
    } else if a.column != b.column {
        a.column < b.column
    } else {
        kind_rank(a.origin_kind) <= kind_rank(b.origin_kind)
    }
}

proof fn lemma_text_order(x: Seq<char>, y: Seq<char>, z: Seq<char>)
    ensures
        seq_lt(x, y) || seq_lt(y, x) || x == y,
        seq_lt(x, y) && seq_lt(y, z) ==> seq_lt(x, z),
        seq_lt(x, y) ==> !seq_lt(y, x),
        !seq_lt(x, x),
{
    lemma_lt_total(x, y);
    if seq_lt(x, y) && seq_lt(y, z) {
        lemma_lt_transitive(x, y, z);
    }
    if seq_lt(x, y) {
        lemma_lt_asymmetric(x, y);
    }
    crate::text::lemma_lt_irreflexive(x);
}

impl Ordered for Conflict {
    open spec fn le(&self, other: &Self) -> bool {
        conflict_le(self@, other@)
    }

    proof fn lemma_le_total(a: &Self, b: &Self) {
        let (x, y) = (a@, b@);
        lemma_text_order(x.adr_id, y.adr_id, y.adr_id);
        lemma_text_order(x.clause_id, y.clause_id, y.clause_id);
        lemma_text_order(x.description, y.description, y.description);
        lemma_text_order(x.filename, y.filename, y.filename);
    }

    proof fn lemma_le_transitive(a: &Self, b: &Self, c: &Self) {
        let (x, y, z) = (a@, b@, c@);
        lemma_text_order(x.adr_id, y.adr_id, z.adr_id);
        lemma_text_order(y.adr_id, z.adr_id, x.adr_id);
        lemma_text_order(z.adr_id, x.adr_id, y.adr_id);
        lemma_text_order(x.clause_id, y.clause_id, z.clause_id);
        lemma_text_order(y.clause_id, z.clause_id, x.clause_id);
        lemma_text_order(z.clause_id, x.clause_id, y.clause_id);
        lemma_text_order(x.description, y.description, z.description);
        lemma_text_order(y.description, z.description, x.description);
        lemma_text_order(z.description, x.description, y.description);
        lemma_text_order(x.filename, y.filename, z.filename);
        lemma_text_order(y.filename, z.filename, x.filename);
        lemma_text_order(z.filename, x.filename, y.filename);
    }

    fn le_exec(&self, other: &Self) -> (r: bool) {
        if !str_eq(self.adr_id.as_str(), other.adr_id.as_str()) {
            str_lt(self.adr_id.as_str(), other.adr_id.as_str())
        } else if !str_eq(self.clause_id.as_str(), other.clause_id.as_str()) {
            str_lt(self.clause_id.as_str(), other.clause_id.as_str())
        } else if !str_eq(self.description.as_str(), other.description.as_str()) {
            str_lt(self.description.as_str(), other.description.as_str())
        } else if !str_eq(self.span.filename.as_str(), other.span.filename.as_str()) {
            str_lt(self.span.filename.as_str(), other.span.filename.as_str())
        } else if self.span.line != other.span.line {
            self.span.line < other.span.line
        } else if self.span.column != other.span.column {
            self.span.column < other.span.column
        } else {
            kind_rank_exec(self.origin_kind) <= kind_rank_exec(other.origin_kind)
        }
    }
}

/// The conflicts that the elements of a core name, in core order.
pub open spec fn core_conflicts(core: Seq<String>, m: ProjectModel) -> Seq<SConflict>
    decreases core.len(),
{
    if core.len() == 0 {
        Seq::empty()
    } else {
        core_conflicts(core.drop_last(), m) + match conflict_of(core.last()@, m) {
            Some(c) => seq![c],
            None => Seq::empty(),
        }
    }
}

pub open spec fn conflict_views(s: Seq<Conflict>) -> Seq<SConflict> {
    s.map_values(|c: Conflict| c@)
}

/// The conflicts an unsat core names, sorted.
pub fn conflicts_for_core(core: &Vec<String>, model: &ProjectModel) -> (r: Vec<Conflict>)
    requires
        strictly_sorted(model.constraints@),
        strictly_sorted(model.facts@),
    ensures
        forall|i: int, j: int| #![trigger r@[i], r@[j]] 0 <= i < j < r@.len() ==> conflict_le(r@[i]@, r@[j]@),
        exists|g: Seq<Conflict>| #[trigger] conflict_views(g) == core_conflicts(core@, *model) && r@.to_multiset()
            == g.to_multiset(),
{
    let mut found: Vec<Conflict> = Vec::new();
    let mut i: usize = 0;
    while i < core.len()
        invariant
            i <= core@.len(),
            strictly_sorted(model.constraints@),
            strictly_sorted(model.facts@),
            conflict_views(found@) == core_conflicts(core@.take(i as int), *model),
        decreases core.len() - i,
    {
        proof {
            assert(core@.take(i + 1).drop_last() =~= core@.take(i as int));
            assert(core@.take(i + 1).last() == core@[i as int]);
        }
        let ghost f0 = found@;
        match conflict_for_key(core[i].as_str(), model) {
            Some(c) => {
                found.push(c);
                proof {
                    assert(conflict_views(found@) =~= conflict_views(f0).push(c@));
                }
            },
            None => {
                proof {
                    assert(conflict_views(found@) =~= conflict_views(f0) + Seq::<SConflict>::empty());
                }
            },
        }
        i = i + 1;
    }
    proof {
        assert(core@.take(core@.len() as int) =~= core@);
    }
    let ghost g = found@;
    let r = sort_stable(found);
    proof {
        assert forall|i: int, j: int| #![trigger r@[i], r@[j]] 0 <= i < j < r@.len() implies conflict_le(r@[i]@, r@[j]@) by {
            assert(r@[i].le(&r@[j]));
        };
    }
    r
}

/// One run of a backend on a model.
#[derive(Debug)]
pub struct CheckRun {
    pub obligation: RelationalProofObligation,
    pub result: BackendResult,
    pub verdict: Verdict,
    pub evidence_status: VerificationStatus,
    pub conflicts: Vec<Conflict>,
}

/// What a check makes of the backend's answer on an obligation: the verdict is
/// downgraded to `Unverified` when a constraint rests on absence that no closed claim
/// covers, and the core is turned into sorted conflicts.
pub fn check_run_of(obligation: RelationalProofObligation, result: BackendResult) -> (run: CheckRun)
    requires
        strictly_sorted(obligation.model.constraints@),
        strictly_sorted(obligation.model.facts@),
    ensures
        run.obligation == obligation,
        run.result == result,
        run.verdict == adjusted(obligation.model, result.verdict),
        run.evidence_status == status_of(run.verdict),
        forall|i: int, j: int| #![trigger run.conflicts@[i], run.conflicts@[j]] 0 <= i < j < run.conflicts@.len()
            ==> conflict_le(run.conflicts@[i]@, run.conflicts@[j]@),
        exists|g: Seq<Conflict>| #[trigger] conflict_views(g) == core_conflicts(result.core@, obligation.model)
            && run.conflicts@.to_multiset() == g.to_multiset(),
{
    let verdict = adjusted_verdict(&obligation.model, result.verdict);
    let conflicts = conflicts_for_core(&result.core, &obligation.model);
    let evidence_status = status_of_verdict(verdict);
    CheckRun { obligation, result, verdict, evidence_status, conflicts }
}

/// Builds the consistency obligation of a model and has the backend check it; the
/// answer is read as `check_run_of` reads it, and a backend error is returned as is.
pub fn check_model<B: ConstraintBackend>(model: ProjectModel, backend: &B, smt_artifact: &str) -> (r: Result<CheckRun, Error>)
    requires
        strictly_sorted(model.constraints@),
        strictly_sorted(model.facts@),
    ensures
        r matches Ok(run) ==> {
            &&& crate::lowering::is_obligation_of(model, run.obligation)
            &&& run.verdict == adjusted(run.obligation.model, run.result.verdict)
            &&& run.evidence_status == status_of(run.verdict)
            &&& forall|i: int, j: int| #![trigger run.conflicts@[i], run.conflicts@[j]] 0 <= i < j < run.conflicts@.len()
                ==> conflict_le(run.conflicts@[i]@, run.conflicts@[j]@)
            &&& exists|g: Seq<Conflict>| #[trigger] conflict_views(g) == core_conflicts(run.result.core@, run.obligation.model)
                && run.conflicts@.to_multiset() == g.to_multiset()
        },
{
    let obligation = relational_obligation(model);
    let result = backend.check(&obligation, smt_artifact)?;
    Ok(check_run_of(obligation, result))
}

// ---------------------------------------------------------------------------
// Laws
// ---------------------------------------------------------------------------

/// A check passes only when the backend found the constraints satisfiable and no
/// constraint rests on absence that a closed completeness claim does not cover:
/// unknown, timed out, failed and unsatisfiable results never pass.
pub proof fn law_only_satisfiable_uncontested_checks_pass(m: ProjectModel, v: Verdict)
    ensures
        status_of(adjusted(m, v)) == VerificationStatus::Pass ==> v == Verdict::Sat && !rests_on_uncovered(m),
        rests_on_uncovered(m) ==> status_of(adjusted(m, v)) != VerificationStatus::Pass,
{
}

} // verus!
