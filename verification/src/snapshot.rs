//! Fact snapshots taken at an externally trusted boundary. A snapshot is pinned by
//! the hash of its bytes and accepted only while the source tree, the provider
//! policy and the specification it was taken from still hold; it is never a
//! sandbox of its own.
use vstd::prelude::*;
use crate::adr::{Error, strs};
use crate::evidence::{InputFingerprint, sha256_hex};
use crate::gate::is_hash_text;
use crate::project::{Applicability, Decision, IntentConstraint, ProjectModel, Provenance, RelationalFormula, SourceSpan};
use crate::text::{own, str_eq, str_lt, seq_lt};

verus! {

// ---------------------------------------------------------------------------
// The parts of a model that a snapshot must share with the specification
// ---------------------------------------------------------------------------

pub open spec fn opt_view(o: Option<String>) -> Option<Seq<char>> {
    match o {
        Some(s) => Some(s@),
        None => None,
    }
}

pub open spec fn span_view(o: Option<SourceSpan>) -> Option<(Seq<char>, usize, usize)> {
    match o {
        Some(s) => Some((s.filename@, s.line, s.column)),
        None => None,
    }
}

pub open spec fn same_provenance(a: Provenance, b: Provenance) -> bool {
    &&& a.kind == b.kind
    &&& a.source@ == b.source@
    &&& span_view(a.span) == span_view(b.span)
    &&& opt_view(a.extractor) == opt_view(b.extractor)
}

pub open spec fn same_applicability_text(a: Applicability, b: Applicability) -> bool {
    &&& strs(a.scopes@) == strs(b.scopes@)
    &&& opt_view(a.effective_since) == opt_view(b.effective_since)
    &&& opt_view(a.effective_until) == opt_view(b.effective_until)
    &&& opt_view(a.version) == opt_view(b.version)
    &&& opt_view(a.feature) == opt_view(b.feature)
    &&& opt_view(a.target) == opt_view(b.target)
    &&& opt_view(a.jurisdiction) == opt_view(b.jurisdiction)
}

pub open spec fn same_decision(a: Decision, b: Decision) -> bool {
    &&& a.id.0@ == b.id.0@
    &&& a.status@ == b.status@
    &&& same_provenance(a.provenance, b.provenance)
    &&& same_applicability_text(a.applicability, b.applicability)
}

pub open spec fn same_constraint(a: IntentConstraint, b: IntentConstraint) -> bool {
    &&& a.id.0@ == b.id.0@
    &&& a.decision.0@ == b.decision.0@
    &&& a.description@ == b.description@
    &&& a.formula@ == b.formula@
    &&& same_provenance(a.provenance, b.provenance)
    &&& same_applicability_text(a.applicability, b.applicability)
}

/// Two models state the same decisions and constraints, in the same order.
pub open spec fn same_obligations(a: ProjectModel, b: ProjectModel) -> bool {
    &&& a.decisions@.len() == b.decisions@.len()
    &&& forall|i: int| 0 <= i < a.decisions@.len() ==> same_decision(#[trigger] a.decisions@[i], b.decisions@[i])
    &&& a.constraints@.len() == b.constraints@.len()
    &&& forall|i: int| 0 <= i < a.constraints@.len() ==> same_constraint(#[trigger] a.constraints@[i], b.constraints@[i])
}

fn opt_eq(a: &Option<String>, b: &Option<String>) -> (r: bool)
    ensures
        r == (opt_view(*a) == opt_view(*b)),
{
    match (a, b) {
        (Some(x), Some(y)) => str_eq(x.as_str(), y.as_str()),
        (None, None) => true,
        _ => false,
    }
}

fn provenance_eq(a: &Provenance, b: &Provenance) -> (r: bool)
    ensures
        r == same_provenance(*a, *b),
{
    let span = match (&a.span, &b.span) {
        (Some(x), Some(y)) => str_eq(x.filename.as_str(), y.filename.as_str()) && x.line == y.line && x.column == y.column,
        (None, None) => true,
        _ => false,
    };
    a.kind == b.kind && str_eq(a.source.as_str(), b.source.as_str()) && span && opt_eq(&a.extractor, &b.extractor)
}

fn applicability_eq(a: &Applicability, b: &Applicability) -> (r: bool)
    ensures
        r == same_applicability_text(*a, *b),
{
    crate::check::same_strings(&a.scopes, &b.scopes) && opt_eq(&a.effective_since, &b.effective_since)
        && opt_eq(&a.effective_until, &b.effective_until) && opt_eq(&a.version, &b.version)
        && opt_eq(&a.feature, &b.feature) && opt_eq(&a.target, &b.target) && opt_eq(&a.jurisdiction, &b.jurisdiction)
}

fn guard_eq(a: &Option<Box<RelationalFormula>>, b: &Option<Box<RelationalFormula>>) -> (r: bool)
    ensures
        r == (match (*a, *b) {
            (Some(x), Some(y)) => x@ == y@,
            (None, None) => true,
            _ => false,
        }),
    decreases a,
{
    match (a, b) {
        (Some(x), Some(y)) => formula_eq(x, y),
        (None, None) => true,
        _ => false,
    }
}

/// Whether two formulas are the same tree.
fn formula_eq(a: &RelationalFormula, b: &RelationalFormula) -> (r: bool)
    ensures
        r == (a@ == b@),
    decreases a,
{
    match (a, b) {
        (RelationalFormula::Bool(x), RelationalFormula::Bool(y)) => *x == *y,
        (RelationalFormula::Name(x), RelationalFormula::Name(y)) => str_eq(x.as_str(), y.as_str()),
        (RelationalFormula::Relation(n, xs), RelationalFormula::Relation(m, ys)) => str_eq(n.as_str(), m.as_str())
            && crate::check::same_strings(xs, ys),
        (RelationalFormula::Eq(x1, x2), RelationalFormula::Eq(y1, y2)) => str_eq(x1.as_str(), y1.as_str()) && str_eq(x2.as_str(), y2.as_str()),
        (RelationalFormula::Ne(x1, x2), RelationalFormula::Ne(y1, y2)) => str_eq(x1.as_str(), y1.as_str()) && str_eq(x2.as_str(), y2.as_str()),
        (RelationalFormula::Not(x), RelationalFormula::Not(y)) => formula_eq(x, y),
        (RelationalFormula::And(x1, x2), RelationalFormula::And(y1, y2)) => formula_eq(x1, y1) && formula_eq(x2, y2),
        (RelationalFormula::Or(x1, x2), RelationalFormula::Or(y1, y2)) => formula_eq(x1, y1) && formula_eq(x2, y2),
        (RelationalFormula::Implies(x1, x2), RelationalFormula::Implies(y1, y2)) => formula_eq(x1, y1) && formula_eq(x2, y2),
        (
            RelationalFormula::Forall { variable: v1, entity_type: t1, guard: g1, body: b1 },
            RelationalFormula::Forall { variable: v2, entity_type: t2, guard: g2, body: b2 },
        ) => str_eq(v1.as_str(), v2.as_str()) && str_eq(t1.as_str(), t2.as_str()) && guard_eq(g1, g2) && formula_eq(b1, b2),
        (
            RelationalFormula::Exists { variable: v1, entity_type: t1, guard: g1, body: b1 },
            RelationalFormula::Exists { variable: v2, entity_type: t2, guard: g2, body: b2 },
        ) => str_eq(v1.as_str(), v2.as_str()) && str_eq(t1.as_str(), t2.as_str()) && guard_eq(g1, g2) && formula_eq(b1, b2),
        _ => false,
    }
}

fn obligations_eq(a: &ProjectModel, b: &ProjectModel) -> (r: bool)
    ensures
        r == same_obligations(*a, *b),
{
    if a.decisions.len() != b.decisions.len() || a.constraints.len() != b.constraints.len() {
        return false;
    }
    let mut i: usize = 0;
    while i < a.decisions.len()
        invariant
            i <= a.decisions@.len(),
            a.decisions@.len() == b.decisions@.len(),
            forall|k: int| 0 <= k < i ==> same_decision(#[trigger] a.decisions@[k], b.decisions@[k]),
        decreases a.decisions.len() - i,
    {
        let x = &a.decisions[i];
        let y = &b.decisions[i];
        if !(str_eq(x.id.0.as_str(), y.id.0.as_str()) && str_eq(x.status.as_str(), y.status.as_str())
            && provenance_eq(&x.provenance, &y.provenance) && applicability_eq(&x.applicability, &y.applicability)) {
            return false;
        }
        i = i + 1;
    }
    let mut i: usize = 0;
    while i < a.constraints.len()
        invariant
            i <= a.constraints@.len(),
            a.constraints@.len() == b.constraints@.len(),
            a.decisions@.len() == b.decisions@.len(),
            forall|k: int| 0 <= k < a.decisions@.len() ==> same_decision(#[trigger] a.decisions@[k], b.decisions@[k]),
            forall|k: int| 0 <= k < i ==> same_constraint(#[trigger] a.constraints@[k], b.constraints@[k]),
        decreases a.constraints.len() - i,
    {
        let x = &a.constraints[i];
        let y = &b.constraints[i];
        if !(str_eq(x.id.0.as_str(), y.id.0.as_str()) && str_eq(x.decision.0.as_str(), y.decision.0.as_str())
            && str_eq(x.description.as_str(), y.description.as_str()) && formula_eq(&x.formula, &y.formula)
            && provenance_eq(&x.provenance, &y.provenance) && applicability_eq(&x.applicability, &y.applicability)) {
            return false;
        }
        i = i + 1;
    }
    true
}

// ---------------------------------------------------------------------------
// Snapshots
// ---------------------------------------------------------------------------

/// One file or directory of a source export: its logical identity, its kind, the
/// hash of its bytes and its permission bits.
#[derive(Debug)]
pub struct TreeEntry {
    pub source: String,
    pub kind: String,
    pub sha256: String,
    pub permissions: u32,
}

impl Clone for TreeEntry {
    fn clone(&self) -> (r: Self)
        ensures
            r == *self,
    {
        TreeEntry { source: self.source.clone(), kind: self.kind.clone(), sha256: self.sha256.clone(), permissions: self.permissions }
    }
}

/// What a trusted producer captured: the source export, the provider policy, the
/// semantic inputs and the model extracted from them.
#[derive(Debug)]
pub struct FactSnapshot {
    pub schema_version: String,
    pub producer_context_sha256: String,
    pub tree: Vec<TreeEntry>,
    pub provider_policy: Vec<TreeEntry>,
    pub semantic_inputs: Vec<InputFingerprint>,
    pub model: ProjectModel,
}

/// What an accepted snapshot is accepted under.
#[derive(Debug)]
pub struct Receipt {
    pub snapshot_sha256: String,
    pub producer_context_sha256: String,
    pub authority: String,
}

pub open spec fn snapshot_schema() -> Seq<char> {
    "adrproof-fact-snapshot-v1alpha1"@
}

pub open spec fn entry_view(e: TreeEntry) -> (Seq<char>, Seq<char>, Seq<char>, u32) {
    (e.source@, e.kind@, e.sha256@, e.permissions)
}

pub open spec fn tree_view(s: Seq<TreeEntry>) -> Seq<(Seq<char>, Seq<char>, Seq<char>, u32)> {
    s.map_values(|e: TreeEntry| entry_view(e))
}

/// The last entry of `tree` with identity `source`.
pub open spec fn entry_for(tree: Seq<TreeEntry>, source: Seq<char>) -> Option<TreeEntry>
    decreases tree.len(),
{
    if tree.len() == 0 {
        None
    } else if tree.last().source@ == source {
        Some(tree.last())
    } else {
        entry_for(tree.drop_last(), source)
    }
}

/// The first problem with the semantic inputs from `i` on: out of order or
/// repeated, absent from the tree, or not the tree's file with that hash; an empty
/// list is a problem of its own.
pub open spec fn semantic_problem_from(inputs: Seq<InputFingerprint>, tree: Seq<TreeEntry>, i: int) -> Option<Seq<char>>
    decreases inputs.len() - i,
{
    if i < 0 || i >= inputs.len() {
        if inputs.len() == 0 { Some("empty semantic input set"@) } else { None }
    } else if i > 0 && !seq_lt(inputs[i - 1].source@, inputs[i].source@) {
        Some("semantic identities must be unique and sorted"@)
    } else {
        match entry_for(tree, inputs[i].source@) {
            None => Some("semantic input escapes or is absent from source tree"@),
            Some(e) => if e.kind@ != "file"@ || e.sha256@ != inputs[i].sha256@ {
                Some("semantic input fingerprint mismatch"@)
            } else {
                semantic_problem_from(inputs, tree, i + 1)
            },
        }
    }
}

/// The provider policy of a tree: its `spec:` entries and the entries of the
/// providers' configuration and executables, in tree order.
pub open spec fn policy_of(tree: Seq<TreeEntry>, execution_inputs: Seq<Seq<char>>) -> Seq<TreeEntry> {
    tree.filter(|e: TreeEntry| in_policy(e, execution_inputs))
}

/// An entry belongs to the provider policy: it is under `spec:` or it is one of
/// the providers' configuration or executables.
pub open spec fn in_policy(e: TreeEntry, execution_inputs: Seq<Seq<char>>) -> bool {
    crate::text::occurs_at(e.source@, 0, "spec:"@) || execution_inputs.contains(e.source@)
}

/// The tree holds a file with identity `x`.
pub open spec fn file_in_tree(tree: Seq<TreeEntry>, x: Seq<char>) -> bool {
    exists|t: int| 0 <= t < tree.len() && (#[trigger] tree[t]).source@ == x && tree[t].kind@ == "file"@
}

/// Some configuration or executable of a provider is not a file of the tree.
pub open spec fn policy_outside(tree: Seq<TreeEntry>, execution_inputs: Seq<Seq<char>>) -> bool {
    exists|k: int| 0 <= k < execution_inputs.len() && !file_in_tree(tree, #[trigger] execution_inputs[k])
}

/// The first reason a pinned snapshot is refused before its specification is
/// compared: a malformed pin, bytes that do not hash to it, a foreign schema or
/// fields, a changed source tree, bad semantic inputs, a provider outside the
/// export, or a changed provider policy.
pub open spec fn snapshot_problem(
    pin: Seq<char>,
    bytes: Seq<u8>,
    snapshot: FactSnapshot,
    fields_exact: bool,
    current_tree: Seq<TreeEntry>,
    execution_inputs: Seq<Seq<char>>,
) -> Option<Seq<char>> {
    if !is_hash_text(pin) {
        Some("explicit snapshot SHA-256 required"@)
    } else if sha256_hex(bytes) != pin {
        Some("SNAPSHOT_PIN_MISMATCH"@)
    } else if snapshot.schema_version@ != snapshot_schema() || !is_hash_text(snapshot.producer_context_sha256@) || !fields_exact {
        Some("unsupported snapshot schema or fields"@)
    } else if tree_view(snapshot.tree@) != tree_view(current_tree) {
        Some("SNAPSHOT_STALE: source tree contents, paths or permissions differ"@)
    } else if semantic_problem_from(snapshot.semantic_inputs@, snapshot.tree@, 0) is Some {
        semantic_problem_from(snapshot.semantic_inputs@, snapshot.tree@, 0)
    } else if policy_outside(snapshot.tree@, execution_inputs) {
        Some("provider configuration/executable must be inside the source export"@)
    } else if tree_view(snapshot.provider_policy@) != tree_view(policy_of(snapshot.tree@, execution_inputs)) {
        Some("SNAPSHOT_PROVIDER_POLICY_MISMATCH"@)
    } else {
        None
    }
}

/// `m` is the model the specification's documents give, with artifacts under `spec:`.
pub open spec fn specification_model(documents: Seq<(String, String)>, spec_root: Seq<char>, m: ProjectModel) -> bool {
    exists|adrs: Seq<crate::adr::Adr>, s: crate::effective::EffectiveSpecification, m1: ProjectModel|
        #[trigger] crate::document::parsed_as(documents, adrs) && #[trigger] crate::effective::effective_of(adrs, false, s)
        && #[trigger] crate::lowering::lowered(adrs, s, m1) && crate::loading::namespaced(m1, m, "spec"@, spec_root)
}

pub open spec fn snapshot_error(e: Error, message: Seq<char>) -> bool {
    e matches Error::Diagnostic { path, line, column, message: m } && path@ == "<fact-snapshot>"@ && line == 1 && column == 1 && m@ == message
}

fn invalid(message: &str) -> (e: Error)
    ensures
        snapshot_error(e, message@),
{
    proof {
        reveal_strlit("<fact-snapshot>");
    }
    crate::adr::diag("<fact-snapshot>", 1, 1, message)
}

fn entries_eq(a: &Vec<TreeEntry>, b: &Vec<TreeEntry>) -> (r: bool)
    ensures
        r == (tree_view(a@) == tree_view(b@)),
{
    if a.len() != b.len() {
        proof {
            assert(tree_view(a@).len() != tree_view(b@).len());
        }
        return false;
    }
    let mut i: usize = 0;
    while i < a.len()
        invariant
            i <= a@.len(),
            a@.len() == b@.len(),
            forall|k: int| 0 <= k < i ==> entry_view(#[trigger] a@[k]) == entry_view(b@[k]),
        decreases a.len() - i,
    {
        let x = &a[i];
        let y = &b[i];
        if !(str_eq(x.source.as_str(), y.source.as_str()) && str_eq(x.kind.as_str(), y.kind.as_str())
            && str_eq(x.sha256.as_str(), y.sha256.as_str()) && x.permissions == y.permissions) {
            proof {
                assert(tree_view(a@)[i as int] != tree_view(b@)[i as int]);
            }
            return false;
        }
        i = i + 1;
    }
    proof {
        assert(tree_view(a@) =~= tree_view(b@));
    }
    true
}

/// Checks a snapshot's pin against its bytes: a pin of 64 lowercase hexadecimal
/// characters that the bytes hash to.
pub fn check_snapshot_pin(pin: &str, bytes: &[u8]) -> (r: Result<(), Error>)
    ensures
        r is Ok <==> is_hash_text(pin@) && sha256_hex(bytes@) == pin@,
        !is_hash_text(pin@) ==> (r matches Err(e) && snapshot_error(e, "explicit snapshot SHA-256 required"@)),
        is_hash_text(pin@) && sha256_hex(bytes@) != pin@ ==> (r matches Err(e) && snapshot_error(e, "SNAPSHOT_PIN_MISMATCH"@)),
{
    if !crate::gate::is_hash(pin) {
        return Err(invalid("explicit snapshot SHA-256 required"));
    }
    let f = crate::evidence::fingerprint_bytes("snapshot", bytes);
    if !str_eq(f.sha256.as_str(), pin) {
        return Err(invalid("SNAPSHOT_PIN_MISMATCH"));
    }
    Ok(())
}

fn entry_index(tree: &Vec<TreeEntry>, source: &str) -> (r: Option<usize>)
    ensures
        match r {
            Some(k) => k < tree@.len() && entry_for(tree@, source@) == Some(tree@[k as int]),
            None => entry_for(tree@, source@) is None,
        },
{
    let mut found: Option<usize> = None;
    let mut i: usize = 0;
    while i < tree.len()
        invariant
            i <= tree@.len(),
            match found {
                Some(k) => k < i && entry_for(tree@.take(i as int), source@) == Some(tree@[k as int]),
                None => entry_for(tree@.take(i as int), source@) is None,
            },
        decreases tree.len() - i,
    {
        proof {
            assert(tree@.take(i + 1).drop_last() =~= tree@.take(i as int));
            assert(tree@.take(i + 1).last() == tree@[i as int]);
        }
        if str_eq(tree[i].source.as_str(), source) {
            found = Some(i);
        }
        i = i + 1;
    }
    proof {
        assert(tree@.take(tree@.len() as int) =~= tree@);
    }
    found
}

fn semantic_check(inputs: &Vec<InputFingerprint>, tree: &Vec<TreeEntry>) -> (r: Result<(), Error>)
    ensures
        match semantic_problem_from(inputs@, tree@, 0) {
            Some(m) => r matches Err(e) && snapshot_error(e, m),
            None => r is Ok,
        },
{
    proof {
        reveal_strlit("file");
        reveal_strlit("empty semantic input set");
        reveal_strlit("semantic identities must be unique and sorted");
        reveal_strlit("semantic input escapes or is absent from source tree");
        reveal_strlit("semantic input fingerprint mismatch");
    }
    let mut i: usize = 0;
    while i < inputs.len()
        invariant
            i <= inputs@.len(),
            semantic_problem_from(inputs@, tree@, 0) == semantic_problem_from(inputs@, tree@, i as int),
        decreases inputs.len() - i,
    {
        if i > 0 && !str_lt(inputs[i - 1].source.as_str(), inputs[i].source.as_str()) {
            return Err(invalid("semantic identities must be unique and sorted"));
        }
        match entry_index(tree, inputs[i].source.as_str()) {
            None => {
                return Err(invalid("semantic input escapes or is absent from source tree"));
            },
            Some(k) => {
                if !str_eq(tree[k].kind.as_str(), "file") || !str_eq(tree[k].sha256.as_str(), inputs[i].sha256.as_str()) {
                    return Err(invalid("semantic input fingerprint mismatch"));
                }
            },
        }
        i = i + 1;
    }
    if inputs.len() == 0 {
        return Err(invalid("empty semantic input set"));
    }
    Ok(())
}

proof fn lemma_strs_contains(v: Seq<String>, x: Seq<char>)
    ensures
        crate::keyed::set_has(v, x) <==> strs(v).contains(x),
{
    if crate::keyed::set_has(v, x) {
        let i = choose|i: int| 0 <= i < v.len() && #[trigger] v[i]@ == x;
        assert(strs(v)[i] == x);
    }
    if strs(v).contains(x) {
        let i = choose|i: int| 0 <= i < strs(v).len() && strs(v)[i] == x;
        assert(v[i]@ == x);
    }
}

fn policy_check(tree: &Vec<TreeEntry>, execution_inputs: &Vec<String>) -> (r: Result<Vec<TreeEntry>, Error>)
    ensures
        policy_outside(tree@, strs(execution_inputs@)) ==> (r matches Err(e)
            && snapshot_error(e, "provider configuration/executable must be inside the source export"@)),
        !policy_outside(tree@, strs(execution_inputs@)) ==> (r matches Ok(v) && v@ == policy_of(tree@, strs(execution_inputs@))),
{
    proof {
        reveal_strlit("file");
        reveal_strlit("spec:");
    }
    let ghost ins = strs(execution_inputs@);
    let mut k: usize = 0;
    while k < execution_inputs.len()
        invariant
            k <= execution_inputs@.len(),
            ins == strs(execution_inputs@),
            forall|k2: int| 0 <= k2 < k ==> file_in_tree(tree@, #[trigger] ins[k2]),
        decreases execution_inputs.len() - k,
    {
        let mut present = false;
        let mut t: usize = 0;
        while t < tree.len()
            invariant
                t <= tree@.len(),
                k < execution_inputs@.len(),
                ins == strs(execution_inputs@),
                present ==> file_in_tree(tree@, ins[k as int]),
                !present ==> forall|t2: int| 0 <= t2 < t ==> !((#[trigger] tree@[t2]).source@ == ins[k as int] && tree@[t2].kind@ == "file"@),
            decreases tree.len() - t,
        {
            proof {
                assert(ins[k as int] == execution_inputs@[k as int]@);
            }
            if str_eq(tree[t].source.as_str(), execution_inputs[k].as_str()) && str_eq(tree[t].kind.as_str(), "file") {
                present = true;
            }
            t = t + 1;
        }
        if !present {
            proof {
                assert(!file_in_tree(tree@, ins[k as int]));
                assert(policy_outside(tree@, ins));
            }
            return Err(invalid("provider configuration/executable must be inside the source export"));
        }
        k = k + 1;
    }
    let ghost pred = |e: TreeEntry| in_policy(e, ins);
    let mut out: Vec<TreeEntry> = Vec::new();
    proof {
        reveal(Seq::filter);
        assert(tree@.take(0).filter(pred) =~= Seq::<TreeEntry>::empty());
    }
    let mut i: usize = 0;
    while i < tree.len()
        invariant
            i <= tree@.len(),
            ins == strs(execution_inputs@),
            pred == (|e: TreeEntry| in_policy(e, ins)),
            out@ == tree@.take(i as int).filter(pred),
        decreases tree.len() - i,
    {
        proof {
            assert(tree@.take(i + 1).drop_last() =~= tree@.take(i as int));
            assert(tree@.take(i + 1).last() == tree@[i as int]);
        }
        let c = crate::text::chars_of(tree[i].source.as_str());
        let spec_ns = crate::text::occurs_at_exec(&c, 0, "spec:");
        let listed = crate::keyed::contains_str(execution_inputs, tree[i].source.as_str());
        proof {
            lemma_strs_contains(execution_inputs@, tree@[i as int].source@);
        }
        proof {
            assert(pred(tree@[i as int]) == (spec_ns || listed));
        }
        if spec_ns || listed {
            out.push(tree[i].clone());
            proof {
                reveal(Seq::filter);
                assert(tree@.take(i + 1).filter(pred) == tree@.take(i as int).filter(pred).push(tree@[i as int]));
            }
        } else {
            proof {
                reveal(Seq::filter);
                assert(tree@.take(i + 1).filter(pred) == tree@.take(i as int).filter(pred));
            }
        }
        i = i + 1;
    }
    proof {
        assert(tree@.take(tree@.len() as int) =~= tree@);
        assert(!policy_outside(tree@, ins));
        assert(policy_of(tree@, ins) == tree@.filter(pred));
    }
    Ok(out)
}

/// Validates a pinned snapshot against the current source tree, the identities of
/// the providers' configuration and executables, and the specification documents.
/// `fields_exact` says whether the snapshot's bytes held exactly the fields it was
/// read into. Refused for the first `snapshot_problem`, then as loading the
/// specification fails, then when the snapshot's decisions and constraints differ
/// from the specification's (`SNAPSHOT_SPEC_MISMATCH`).
pub fn validate_snapshot(
    pin: &str,
    bytes: &[u8],
    snapshot: &FactSnapshot,
    fields_exact: bool,
    current_tree: &Vec<TreeEntry>,
    execution_inputs: &Vec<String>,
    documents: &Vec<(String, String)>,
    spec_root: &str,
) -> (r: Result<Receipt, Error>)
    ensures
        snapshot_problem(pin@, bytes@, *snapshot, fields_exact, current_tree@, strs(execution_inputs@)) matches Some(m)
            ==> (r matches Err(e) && snapshot_error(e, m)),
        snapshot_problem(pin@, bytes@, *snapshot, fields_exact, current_tree@, strs(execution_inputs@)) is None
            && !crate::assembly::loads(documents@) ==> r is Err,
        snapshot_problem(pin@, bytes@, *snapshot, fields_exact, current_tree@, strs(execution_inputs@)) is None
            && crate::assembly::loads(documents@)
            && (forall|m: ProjectModel| #[trigger] specification_model(documents@, spec_root@, m) ==> same_obligations(snapshot.model, m))
            ==> r is Ok,
        r matches Err(e) ==> (snapshot_problem(pin@, bytes@, *snapshot, fields_exact, current_tree@, strs(execution_inputs@)) is None
            && crate::assembly::loads(documents@) ==> snapshot_error(e, "SNAPSHOT_SPEC_MISMATCH: captured obligations differ from current specification"@)
            && exists|m: ProjectModel| #[trigger] specification_model(documents@, spec_root@, m) && !same_obligations(snapshot.model, m)),
        r matches Ok(rc) ==> {
            &&& snapshot_problem(pin@, bytes@, *snapshot, fields_exact, current_tree@, strs(execution_inputs@)) is None
            &&& exists|m: ProjectModel| #[trigger] specification_model(documents@, spec_root@, m) && same_obligations(snapshot.model, m)
            &&& rc.snapshot_sha256@ == pin@
            &&& rc.producer_context_sha256@ == snapshot.producer_context_sha256@
            &&& rc.authority@ == "externally_pinned_snapshot_and_declared_producer_context"@
        },
{
    proof {
        reveal_strlit("adrproof-fact-snapshot-v1alpha1");
        reveal_strlit("externally_pinned_snapshot_and_declared_producer_context");
    }
    match check_snapshot_pin(pin, bytes) {
        Ok(()) => {},
        Err(e) => return Err(e),
    }
    if !str_eq(snapshot.schema_version.as_str(), "adrproof-fact-snapshot-v1alpha1")
        || !crate::gate::is_hash(snapshot.producer_context_sha256.as_str()) || !fields_exact {
        return Err(invalid("unsupported snapshot schema or fields"));
    }
    if !entries_eq(&snapshot.tree, current_tree) {
        return Err(invalid("SNAPSHOT_STALE: source tree contents, paths or permissions differ"));
    }
    match semantic_check(&snapshot.semantic_inputs, &snapshot.tree) {
        Ok(()) => {},
        Err(e) => return Err(e),
    }
    let policy = match policy_check(&snapshot.tree, execution_inputs) {
        Ok(p) => p,
        Err(e) => return Err(e),
    };
    if !entries_eq(&snapshot.provider_policy, &policy) {
        return Err(invalid("SNAPSHOT_PROVIDER_POLICY_MISMATCH"));
    }
    let adrs = match crate::document::load_adrs(documents) {
        Ok(a) => a,
        Err(e) => return Err(e),
    };
    let ghost av = adrs@;
    let spec = match crate::effective::effective(&adrs, false) {
        Ok(s) => s,
        Err(e) => {
            proof {
                assert(!crate::assembly::assembles(av));
            }
            return Err(e);
        },
    };
    proof {
        assert forall|b: Seq<crate::adr::Adr>| #[trigger] crate::document::parsed_as(documents@, b) implies crate::assembly::assembles(b) by {
            crate::assembly::lemma_parsed_same(documents@, av, b);
            crate::assembly::lemma_assembles_views(av, b);
        };
    }
    let mut expected = crate::lowering::lower_to_project_model(&adrs, &spec);
    let ghost m1 = expected;
    crate::loading::namespace_model_artifacts(&mut expected, "spec", spec_root);
    proof {
        assert(specification_model(documents@, spec_root@, expected));
    }
    if !obligations_eq(&snapshot.model, &expected) {
        return Err(invalid("SNAPSHOT_SPEC_MISMATCH: captured obligations differ from current specification"));
    }
    Ok(Receipt {
        snapshot_sha256: own(pin),
        producer_context_sha256: own(snapshot.producer_context_sha256.as_str()),
        authority: own("externally_pinned_snapshot_and_declared_producer_context"),
    })
}

/// What a capture records of a checkout: the model its specification and workspace
/// assemble into, with every semantic input a file of the tree before extraction,
/// fingerprinted from its bytes.
pub open spec fn captured(
    roots: crate::roots::VerificationRoots,
    documents: Seq<(String, String)>,
    cargo: Option<(crate::cargo::CargoMetadata, Vec<(String, String)>)>,
    contents: Seq<(String, Vec<u8>)>,
    before: Seq<TreeEntry>,
    snap: FactSnapshot,
) -> bool {
    exists|adrs: Seq<crate::adr::Adr>, inputs: Seq<crate::roots::SemanticInput>, u: Seq<crate::roots::SemanticInput>|
        #[trigger] crate::document::parsed_as(documents, adrs)
        && #[trigger] crate::assembly::assembled(roots, adrs, cargo, snap.model, inputs)
        && (forall|i: int| 0 <= i < inputs.len() ==> file_in_tree(before, (#[trigger] inputs[i]).identity@))
        && #[trigger] crate::assembly::inputs_of(crate::assembly::input_pairs(inputs), u)
        && crate::assembly::fingerprinted(u, contents, snap.semantic_inputs@)
}

/// Every model the documents assemble into has its semantic inputs among the files
/// of the tree, with bytes given, and fingerprints that `semantic_problem_from`
/// accepts against the tree.
pub open spec fn capturable(
    roots: crate::roots::VerificationRoots,
    documents: Seq<(String, String)>,
    cargo: Option<(crate::cargo::CargoMetadata, Vec<(String, String)>)>,
    contents: Seq<(String, Vec<u8>)>,
    before: Seq<TreeEntry>,
) -> bool {
    forall|adrs: Seq<crate::adr::Adr>, m: ProjectModel, inputs: Seq<crate::roots::SemanticInput>|
        #[trigger] crate::document::parsed_as(documents, adrs) && #[trigger] crate::assembly::assembled(roots, adrs, cargo, m, inputs) ==> {
            &&& forall|i: int| 0 <= i < inputs.len() ==> file_in_tree(before, (#[trigger] inputs[i]).identity@)
            &&& forall|u: Seq<crate::roots::SemanticInput>| #[trigger] crate::assembly::inputs_of(crate::assembly::input_pairs(inputs), u) ==> {
                &&& forall|j: int| 0 <= j < u.len() ==> crate::assembly::content_of(contents, (#[trigger] u[j]).path@) is Some
                &&& forall|fps: Seq<InputFingerprint>| #[trigger] crate::assembly::fingerprinted(u, contents, fps)
                    ==> semantic_problem_from(fps, before, 0) is None
            }
        }
}

/// Captures a snapshot of a checkout, given the source tree before and after the
/// extraction and the identities of the providers' configuration and executables.
/// Refused for a malformed producer context first, then a provider outside the
/// export, then as loading fails, then for a semantic input that is not a file of
/// the tree, an input without bytes, a tree that changed during the extraction
/// (`CAPTURE_INPUT_DRIFT`), or semantic inputs that `semantic_problem_from` refuses.
pub fn capture_snapshot(
    producer_context_sha256: &str,
    roots: &crate::roots::VerificationRoots,
    documents: &Vec<(String, String)>,
    cargo: Option<(crate::cargo::CargoMetadata, Vec<(String, String)>)>,
    contents: &Vec<(String, Vec<u8>)>,
    before: Vec<TreeEntry>,
    after: &Vec<TreeEntry>,
    execution_inputs: &Vec<String>,
) -> (r: Result<FactSnapshot, Error>)
    ensures
        !is_hash_text(producer_context_sha256@) ==> (r matches Err(e) && snapshot_error(e, "explicit producer context SHA-256 required"@)),
        is_hash_text(producer_context_sha256@) && policy_outside(before@, strs(execution_inputs@)) ==> (r matches Err(e)
            && snapshot_error(e, "provider configuration/executable must be inside the source export"@)),
        is_hash_text(producer_context_sha256@) && !policy_outside(before@, strs(execution_inputs@)) && !crate::assembly::loads(documents@)
            ==> r is Err,
        is_hash_text(producer_context_sha256@) && !policy_outside(before@, strs(execution_inputs@)) && crate::assembly::loads(documents@)
            && tree_view(before@) != tree_view(after@) ==> r is Err,
        is_hash_text(producer_context_sha256@) && !policy_outside(before@, strs(execution_inputs@)) && crate::assembly::loads(documents@)
            && tree_view(before@) == tree_view(after@) && capturable(*roots, documents@, cargo, contents@, before@) ==> r is Ok,
        r matches Ok(snap) ==> {
            &&& snap.schema_version@ == snapshot_schema()
            &&& snap.producer_context_sha256@ == producer_context_sha256@
            &&& snap.tree@ == before@
            &&& tree_view(before@) == tree_view(after@)
            &&& snap.provider_policy@ == policy_of(before@, strs(execution_inputs@))
            &&& semantic_problem_from(snap.semantic_inputs@, snap.tree@, 0) is None
            &&& captured(*roots, documents@, cargo, contents@, before@, snap)
        },
{
    proof {
        reveal_strlit("adrproof-fact-snapshot-v1alpha1");
        reveal_strlit("file");
    }
    if !crate::gate::is_hash(producer_context_sha256) {
        return Err(invalid("explicit producer context SHA-256 required"));
    }
    let policy = match policy_check(&before, execution_inputs) {
        Ok(p) => p,
        Err(e) => return Err(e),
    };
    let (model, inputs) = match crate::assembly::load_project_model_with_roots(roots, documents, cargo) {
        Ok(x) => x,
        Err(e) => return Err(e),
    };
    let ghost adrs = choose|adrs: Seq<crate::adr::Adr>| #[trigger] crate::document::read_from(documents@, adrs)
        && crate::document::parsed_as(documents@, adrs) && crate::assembly::assembles(adrs)
        && crate::assembly::assembled(*roots, adrs, cargo, model, inputs@);
    proof {
        assert(crate::document::parsed_as(documents@, adrs) && crate::assembly::assembled(*roots, adrs, cargo, model, inputs@));
    }
    let ghost can = capturable(*roots, documents@, cargo, contents@, before@);
    let mut i: usize = 0;
    while i < inputs.len()
        invariant
            i <= inputs@.len(),
            is_hash_text(producer_context_sha256@),
            !policy_outside(before@, strs(execution_inputs@)),
            crate::assembly::loads(documents@),
            can == capturable(*roots, documents@, cargo, contents@, before@),
            can ==> forall|k: int| 0 <= k < inputs@.len() ==> file_in_tree(before@, (#[trigger] inputs@[k]).identity@),
            forall|k: int| 0 <= k < i ==> file_in_tree(before@, (#[trigger] inputs@[k]).identity@),
        decreases inputs.len() - i,
    {
        let mut present = false;
        let mut t: usize = 0;
        while t < before.len()
            invariant
                t <= before@.len(),
                i < inputs@.len(),
                present ==> file_in_tree(before@, inputs@[i as int].identity@),
                !present ==> forall|t2: int| 0 <= t2 < t ==> !((#[trigger] before@[t2]).source@ == inputs@[i as int].identity@
                    && before@[t2].kind@ == "file"@),
            decreases before.len() - t,
        {
            if str_eq(before[t].source.as_str(), inputs[i].identity.as_str()) && str_eq(before[t].kind.as_str(), "file") {
                present = true;
            }
            t = t + 1;
        }
        if !present {
            proof {
                assert(!file_in_tree(before@, inputs@[i as int].identity@));
            }
            return Err(invalid("semantic input escapes or is absent from source tree"));
        }
        i = i + 1;
    }
    let ghost mv = model;
    let fr = crate::assembly::fingerprint_semantic_files(&inputs, contents);
    let ghost u = choose|u: Seq<crate::roots::SemanticInput>| #[trigger] crate::assembly::inputs_of(crate::assembly::input_pairs(inputs@), u) && {
        &&& (fr is Ok <==> forall|j: int| 0 <= j < u.len() ==> crate::assembly::content_of(contents@, (#[trigger] u[j]).path@) is Some)
        &&& (fr matches Ok(fps) ==> crate::assembly::fingerprinted(u, contents@, fps@))
    };
    let semantic_inputs = match fr {
        Ok(f) => f,
        Err(e) => return Err(e),
    };
    proof {
        assert(crate::assembly::inputs_of(crate::assembly::input_pairs(inputs@), u));
        assert(crate::assembly::fingerprinted(u, contents@, semantic_inputs@));
    }
    proof {
        let adrs = choose|adrs: Seq<crate::adr::Adr>| #[trigger] crate::document::read_from(documents@, adrs)
            && crate::document::parsed_as(documents@, adrs) && crate::assembly::assembles(adrs)
            && crate::assembly::assembled(*roots, adrs, cargo, mv, inputs@);
        let u = choose|u: Seq<crate::roots::SemanticInput>| #[trigger] crate::assembly::inputs_of(crate::assembly::input_pairs(inputs@), u) && {
            &&& (semantic_inputs@.len() >= 0)
            &&& crate::assembly::fingerprinted(u, contents@, semantic_inputs@)
        };
        assert(crate::document::parsed_as(documents@, adrs) && crate::assembly::assembled(*roots, adrs, cargo, mv, inputs@)
            && crate::assembly::inputs_of(crate::assembly::input_pairs(inputs@), u));
    }
    if !entries_eq(&before, after) {
        return Err(invalid("CAPTURE_INPUT_DRIFT: extraction changed its source export"));
    }
    let snap = FactSnapshot {
        schema_version: own("adrproof-fact-snapshot-v1alpha1"),
        producer_context_sha256: own(producer_context_sha256),
        tree: before,
        provider_policy: policy,
        semantic_inputs,
        model,
    };
    match semantic_check(&snap.semantic_inputs, &snap.tree) {
        Ok(()) => {},
        Err(e) => return Err(e),
    }
    proof {
        assert(snap.tree@ == before@);
        assert(snap.provider_policy@ == policy_of(before@, strs(execution_inputs@)));
        assert(snap.model == mv);
        assert(captured(*roots, documents@, cargo, contents@, before@, snap));
    }
    Ok(snap)
}

} // verus!
