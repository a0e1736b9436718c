//! The backend-neutral project model: artifacts, decisions, constraints, facts,
//! coverage claims and the typed graph that links them.
use vstd::prelude::*;
use crate::keyed::{Keyed, strictly_sorted, upsert, has_key, set_has};
use crate::adr::{Decl, Expr, SDecl, SExpr, strs};
use crate::text::{cat, cat3, chars_of, own, str_eq, first_index_of, find_char, slice_string, string_from_chars};

verus! {

/// Position in a source file.
#[derive(Debug)]
pub struct SourceSpan {
    pub filename: String,
    pub line: usize,
    pub column: usize,
}

impl Clone for SourceSpan {
    fn clone(&self) -> (r: Self)
        ensures
            r == *self,
    {
        SourceSpan { filename: self.filename.clone(), line: self.line, column: self.column }
    }
}

#[derive(Debug)]
pub struct ArtifactId(pub String);

#[derive(Debug)]
pub struct DecisionId(pub String);

#[derive(Debug)]
pub struct ConstraintId(pub String);

#[derive(Debug)]
pub struct FactId(pub String);

#[derive(Debug)]
pub struct ProofObligationId(pub String);

#[derive(Debug)]
pub struct EvidenceId(pub String);

impl Clone for ArtifactId {
    fn clone(&self) -> (r: Self)
        ensures
            r == *self,
    {
        ArtifactId(self.0.clone())
    }
}

impl Clone for DecisionId {
    fn clone(&self) -> (r: Self)
        ensures
            r == *self,
    {
        DecisionId(self.0.clone())
    }
}

impl Clone for ConstraintId {
    fn clone(&self) -> (r: Self)
        ensures
            r == *self,
    {
        ConstraintId(self.0.clone())
    }
}

impl Clone for FactId {
    fn clone(&self) -> (r: Self)
        ensures
            r == *self,
    {
        FactId(self.0.clone())
    }
}

impl Clone for ProofObligationId {
    fn clone(&self) -> (r: Self)
        ensures
            r == *self,
    {
        ProofObligationId(self.0.clone())
    }
}

impl Clone for EvidenceId {
    fn clone(&self) -> (r: Self)
        ensures
            r == *self,
    {
        EvidenceId(self.0.clone())
    }
}

/// How a model element came to be.
#[derive(Debug, Clone, Copy, PartialEq, Eq, Structural)]
pub enum ProvenanceKind {
    HumanAuthored,
    DeterministicallyExtracted,
    Authoritative,
    LlmDerived,
}

#[derive(Debug)]
pub struct Provenance {
    pub kind: ProvenanceKind,
    pub source: String,
    pub span: Option<SourceSpan>,
    pub extractor: Option<String>,
}

impl Clone for Provenance {
    fn clone(&self) -> (r: Self)
        ensures
            r == *self,
    {
        Provenance {
            kind: self.kind,
            source: self.source.clone(),
            span: match &self.span {
                Some(s) => Some(s.clone()),
                None => None,
            },
            extractor: match &self.extractor {
                Some(e) => Some(e.clone()),
                None => None,
            },
        }
    }
}

/// Where and when a decision or constraint applies; carried through unchanged.
#[derive(Debug)]
pub struct Applicability {
    pub scopes: Vec<String>,
    pub effective_since: Option<String>,
    pub effective_until: Option<String>,
    pub version: Option<String>,
    pub feature: Option<String>,
    pub target: Option<String>,
    pub jurisdiction: Option<String>,
}

impl Clone for Applicability {
    fn clone(&self) -> (r: Self)
        ensures
            same_applicability(r, *self),
    {
        Applicability {
            scopes: clone_strings(&self.scopes),
            effective_since: clone_opt(&self.effective_since),
            effective_until: clone_opt(&self.effective_until),
            version: clone_opt(&self.version),
            feature: clone_opt(&self.feature),
            target: clone_opt(&self.target),
            jurisdiction: clone_opt(&self.jurisdiction),
        }
    }
}

/// The same scopes and validity.
pub open spec fn same_applicability(a: Applicability, b: Applicability) -> bool {
    &&& a.scopes@ == b.scopes@
    &&& a.effective_since == b.effective_since
    &&& a.effective_until == b.effective_until
    &&& a.version == b.version
    &&& a.feature == b.feature
    &&& a.target == b.target
    &&& a.jurisdiction == b.jurisdiction
}

fn clone_opt(o: &Option<String>) -> (r: Option<String>)
    ensures
        r == *o,
{
    match o {
        Some(s) => Some(s.clone()),
        None => None,
    }
}

impl Applicability {
    /// The empty applicability: no scope restriction and no validity window.
    pub fn none() -> (r: Self)
        ensures
            r.scopes@.len() == 0,
            r.effective_since is None,
            r.effective_until is None,
            r.version is None,
            r.feature is None,
            r.target is None,
            r.jurisdiction is None,
    {
        Applicability {
            scopes: Vec::new(),
            effective_since: None,
            effective_until: None,
            version: None,
            feature: None,
            target: None,
            jurisdiction: None,
        }
    }
}

#[derive(Debug)]
pub struct Artifact {
    pub id: ArtifactId,
    pub kind: String,
    pub provenance: Provenance,
}

#[derive(Debug)]
pub struct Decision {
    pub id: DecisionId,
    pub status: String,
    pub provenance: Provenance,
    pub applicability: Applicability,
}

#[derive(Debug)]
pub struct IntentConstraint {
    pub id: ConstraintId,
    pub decision: DecisionId,
    pub description: String,
    pub formula: RelationalFormula,
    pub provenance: Provenance,
    pub applicability: Applicability,
}

/// An observed (or, for closed-world absence, derived) ground atom about the project.
#[derive(Debug)]
pub struct ProjectFact {
    pub id: FactId,
    pub relation: String,
    pub arguments: Vec<String>,
    pub value: bool,
    pub attributes: Vec<(String, String)>,
    pub provenance: Provenance,
}

impl Clone for ProjectFact {
    fn clone(&self) -> (r: Self)
        ensures
            r.id == self.id,
            r.relation == self.relation,
            r.arguments@ == self.arguments@,
            r.value == self.value,
            r.attributes@ == self.attributes@,
            r.provenance == self.provenance,
    {
        ProjectFact {
            id: self.id.clone(),
            relation: self.relation.clone(),
            arguments: self.arguments.clone(),
            value: self.value,
            attributes: clone_pairs(&self.attributes),
            provenance: self.provenance.clone(),
        }
    }
}

/// A copy of a list of key/value pairs.
pub fn clone_pairs(v: &Vec<(String, String)>) -> (r: Vec<(String, String)>)
    ensures
        r@ == v@,
{
    let mut r: Vec<(String, String)> = Vec::new();
    let mut i: usize = 0;
    while i < v.len()
        invariant
            i <= v@.len(),
            r@ == v@.subrange(0, i as int),
        decreases v.len() - i,
    {
        let (a, b) = &v[i];
        r.push((a.clone(), b.clone()));
        proof {
            assert(v@.subrange(0, i + 1) =~= v@.subrange(0, i as int).push(v@[i as int]));
        }
        i = i + 1;
    }
    proof {
        assert(v@.subrange(0, v@.len() as int) =~= v@);
    }
    r
}

/// A copy of a list of strings.
pub fn clone_strings(v: &Vec<String>) -> (r: Vec<String>)
    ensures
        r@ == v@,
{
    let mut r: Vec<String> = Vec::new();
    let mut i: usize = 0;
    while i < v.len()
        invariant
            i <= v@.len(),
            r@ == v@.subrange(0, i as int),
        decreases v.len() - i,
    {
        r.push(v[i].clone());
        proof {
            assert(v@.subrange(0, i + 1) =~= v@.subrange(0, i as int).push(v@[i as int]));
        }
        i = i + 1;
    }
    proof {
        assert(v@.subrange(0, v@.len() as int) =~= v@);
    }
    r
}

/// Whether a provider claims to enumerate all true atoms (closed) or only some (partial).
#[derive(Debug, Clone, Copy, PartialEq, Eq, Structural)]
pub enum WorldAssumption {
    Closed,
    Partial,
}

/// The part of the project a coverage claim speaks about.
#[derive(Debug)]
pub enum CoverageScope {
    Global,
    Schema(String),
    Table(String),
    MaterializedView(String),
    Package(String),
}

impl Clone for CoverageScope {
    fn clone(&self) -> (r: Self)
        ensures
            r == *self,
    {
        match self {
            CoverageScope::Global => CoverageScope::Global,
            CoverageScope::Schema(s) => CoverageScope::Schema(s.clone()),
            CoverageScope::Table(s) => CoverageScope::Table(s.clone()),
            CoverageScope::MaterializedView(s) => CoverageScope::MaterializedView(s.clone()),
            CoverageScope::Package(s) => CoverageScope::Package(s.clone()),
        }
    }
}

/// The schema part of a qualified name: the text before its first `.`, if any.
pub open spec fn schema_of(name: Seq<char>) -> Option<Seq<char>> {
    match first_index_of(name, '.', 0, name.len() as int) {
        Some(i) => Some(name.subrange(0, i)),
        None => None,
    }
}

/// The view of a coverage scope.
pub enum SScope {
    Global,
    Schema(Seq<char>),
    Table(Seq<char>),
    MaterializedView(Seq<char>),
    Package(Seq<char>),
}

impl View for CoverageScope {
    type V = SScope;

    open spec fn view(&self) -> SScope {
        match self {
            CoverageScope::Global => SScope::Global,
            CoverageScope::Schema(s) => SScope::Schema(s@),
            CoverageScope::Table(s) => SScope::Table(s@),
            CoverageScope::MaterializedView(s) => SScope::MaterializedView(s@),
            CoverageScope::Package(s) => SScope::Package(s@),
        }
    }
}

/// Whether a claim made for scope `claim` speaks about the requested scope.
pub open spec fn spec_covers(claim: SScope, requested: SScope) -> bool {
    match (claim, requested) {
        (SScope::Global, _) => true,
        (SScope::Schema(e), SScope::Schema(a)) => e == a,
        (SScope::Schema(e), SScope::Table(a)) => schema_of(a) == Some(e),
        (SScope::Schema(e), SScope::MaterializedView(a)) => schema_of(a) == Some(e),
        (SScope::Table(e), SScope::Table(a)) => e == a,
        (SScope::MaterializedView(e), SScope::MaterializedView(a)) => e == a,
        (SScope::Package(e), SScope::Package(a)) => e == a,
        _ => false,
    }
}

fn schema_matches(expected: &String, actual: &String) -> (r: bool)
    ensures
        r == (schema_of(actual@) == Some(expected@)),
{
    let a = chars_of(actual.as_str());
    match find_char(&a, '.', 0, a.len()) {
        Some(i) => {
            let head = slice_string(&a, 0, i);
            let r = str_eq(head.as_str(), expected.as_str());
            proof {
                assert(schema_of(actual@) == Some(actual@.subrange(0, i as int)));
                if r {
                    assert(head@ == expected@);
                } else {
                    assert(head@ != expected@);
                }
            }
            r
        },
        None => false,
    }
}

impl CoverageScope {
    /// Whether a claim for this scope speaks about `requested`.
    pub fn covers(&self, requested: &Self) -> (r: bool)
        ensures
            r == spec_covers(self@, requested@),
    {
        match (self, requested) {
            (CoverageScope::Global, _) => true,
            (CoverageScope::Schema(e), CoverageScope::Schema(a)) => str_eq(e.as_str(), a.as_str()),
            (CoverageScope::Schema(e), CoverageScope::Table(a)) => schema_matches(e, a),
            (CoverageScope::Schema(e), CoverageScope::MaterializedView(a)) => schema_matches(e, a),
            (CoverageScope::Table(e), CoverageScope::Table(a)) => str_eq(e.as_str(), a.as_str()),
            (CoverageScope::MaterializedView(e), CoverageScope::MaterializedView(a)) => str_eq(
                e.as_str(),
                a.as_str(),
            ),
            (CoverageScope::Package(e), CoverageScope::Package(a)) => str_eq(e.as_str(), a.as_str()),
            _ => false,
        }
    }
}

#[derive(Debug)]
pub struct CoverageDiagnostic {
    pub reason: String,
    pub provenance: Provenance,
}

/// A provider's completeness claim for one relation within one scope.
#[derive(Debug)]
pub struct FactCoverage {
    pub relation: String,
    pub provider: String,
    pub world: WorldAssumption,
    pub scope: CoverageScope,
    pub qualifiers: Vec<(String, String)>,
    pub statement: String,
    pub diagnostics: Vec<CoverageDiagnostic>,
}

/// The ground relational logic the project model states constraints in.
#[derive(Debug)]
pub enum RelationalFormula {
    Bool(bool),
    Name(String),
    Relation(String, Vec<String>),
    Eq(String, String),
    Ne(String, String),
    Not(Box<RelationalFormula>),
    And(Box<RelationalFormula>, Box<RelationalFormula>),
    Or(Box<RelationalFormula>, Box<RelationalFormula>),
    Implies(Box<RelationalFormula>, Box<RelationalFormula>),
    Forall {
        variable: String,
        entity_type: String,
        guard: Option<Box<RelationalFormula>>,
        body: Box<RelationalFormula>,
    },
    Exists {
        variable: String,
        entity_type: String,
        guard: Option<Box<RelationalFormula>>,
        body: Box<RelationalFormula>,
    },
}

/// A node of the typed proof graph.
#[derive(Debug)]
pub enum GraphNode {
    Artifact(ArtifactId),
    Decision(DecisionId),
    Constraint(ConstraintId),
    Fact(FactId),
    ProofObligation(ProofObligationId),
    Evidence(EvidenceId),
}

impl Clone for GraphNode {
    fn clone(&self) -> (r: Self)
        ensures
            r == *self,
    {
        match self {
            GraphNode::Artifact(i) => GraphNode::Artifact(i.clone()),
            GraphNode::Decision(i) => GraphNode::Decision(i.clone()),
            GraphNode::Constraint(i) => GraphNode::Constraint(i.clone()),
            GraphNode::Fact(i) => GraphNode::Fact(i.clone()),
            GraphNode::ProofObligation(i) => GraphNode::ProofObligation(i.clone()),
            GraphNode::Evidence(i) => GraphNode::Evidence(i.clone()),
        }
    }
}

/// The kind of a graph edge.
#[derive(Debug, Clone, Copy, PartialEq, Eq, Structural)]
pub enum LinkKind {
    Contains,
    Defines,
    Produces,
    RelevantTo,
    ParticipatesIn,
    Implements,
    DependsOn,
    Supersedes,
    Amends,
    ExceptionTo,
    VerifiedBy,
    DerivedFrom,
    EvidenceFor,
    Requires,
    RequiredBy,
}

#[derive(Debug)]
pub struct GraphEdge {
    pub from: GraphNode,
    pub kind: LinkKind,
    pub to: GraphNode,
}

impl Clone for GraphEdge {
    fn clone(&self) -> (r: Self)
        ensures
            r == *self,
    {
        GraphEdge { from: self.from.clone(), kind: self.kind, to: self.to.clone() }
    }
}

/// One declaration of the intent vocabulary.
#[derive(Debug)]
pub enum IntentDeclaration {
    Bool(String),
    EntityType { name: String, members: Vec<String> },
    Relation { name: String, arguments: Vec<String> },
}

/// The project model. Each keyed collection is strictly sorted by its key, which is
/// how the model keeps one element per identity in a deterministic order.
#[derive(Debug)]
pub struct ProjectModel {
    pub artifacts: Vec<Artifact>,
    pub decisions: Vec<Decision>,
    pub constraints: Vec<IntentConstraint>,
    pub facts: Vec<ProjectFact>,
    pub declarations: Vec<IntentDeclaration>,
    pub fact_coverage: Vec<FactCoverage>,
    pub edges: Vec<GraphEdge>,
}

impl Default for ProjectModel {
    fn default() -> (r: Self)
        ensures
            r.artifacts@.len() == 0,
            r.decisions@.len() == 0,
            r.constraints@.len() == 0,
            r.facts@.len() == 0,
            r.declarations@.len() == 0,
            r.fact_coverage@.len() == 0,
            r.edges@.len() == 0,
    {
        ProjectModel {
            artifacts: Vec::new(),
            decisions: Vec::new(),
            constraints: Vec::new(),
            facts: Vec::new(),
            declarations: Vec::new(),
            fact_coverage: Vec::new(),
            edges: Vec::new(),
        }
    }
}

impl Keyed for Artifact {
    open spec fn key(&self) -> Seq<char> {
        self.id.0@
    }

    fn key_string(&self) -> (r: String) {
        self.id.0.clone()
    }
}

impl Keyed for Decision {
    open spec fn key(&self) -> Seq<char> {
        self.id.0@
    }

    fn key_string(&self) -> (r: String) {
        self.id.0.clone()
    }
}

impl Keyed for IntentConstraint {
    open spec fn key(&self) -> Seq<char> {
        self.id.0@
    }

    fn key_string(&self) -> (r: String) {
        self.id.0.clone()
    }
}

impl Keyed for ProjectFact {
    open spec fn key(&self) -> Seq<char> {
        self.id.0@
    }

    fn key_string(&self) -> (r: String) {
        self.id.0.clone()
    }
}

impl Keyed for GraphEdge {
    open spec fn key(&self) -> Seq<char> {
        edge_json(*self)
    }

    fn key_string(&self) -> (r: String) {
        edge_json_string(self)
    }
}

/// Each keyed collection of the model holds one element per key, in key order.
pub open spec fn model_well_formed(m: ProjectModel) -> bool {
    &&& strictly_sorted(m.artifacts@)
    &&& strictly_sorted(m.decisions@)
    &&& strictly_sorted(m.constraints@)
    &&& strictly_sorted(m.facts@)
    &&& strictly_sorted(m.edges@)
}

// ---------------------------------------------------------------------------
// JSON text of graph edges (the order in which the model keeps its edges).
// ---------------------------------------------------------------------------

pub open spec fn hex_digit(d: nat) -> char {
    if d < 10 {
        crate::text::digit_char(d)
    } else if d == 10 {
        'a'
    } else if d == 11 {
        'b'
    } else if d == 12 {
        'c'
    } else if d == 13 {
        'd'
    } else if d == 14 {
        'e'
    } else {
        'f'
    }
}

/// JSON string escaping of one character, as `serde_json` writes it.
pub open spec fn json_escape_char(c: char) -> Seq<char> {
    if c == '"' {
        seq!['\\', '"']
    } else if c == '\\' {
        seq!['\\', '\\']
    } else if c == '\n' {
        seq!['\\', 'n']
    } else if c == '\r' {
        seq!['\\', 'r']
    } else if c == '\t' {
        seq!['\\', 't']
    } else if c == '\x08' {
        seq!['\\', 'b']
    } else if c == '\x0C' {
        seq!['\\', 'f']
    } else if (c as u32) < 0x20 {
        seq!['\\', 'u', '0', '0', hex_digit(((c as u32) / 16) as nat), hex_digit(((c as u32) % 16) as nat)]
    } else {
        seq![c]
    }
}

pub open spec fn json_escape(s: Seq<char>) -> Seq<char>
    decreases s.len(),
{
    if s.len() == 0 {
        Seq::empty()
    } else {
        json_escape(s.drop_last()) + json_escape_char(s.last())
    }
}

/// A JSON string literal.
pub open spec fn json_string(s: Seq<char>) -> Seq<char> {
    seq!['"'] + json_escape(s) + seq!['"']
}

pub open spec fn node_variant(n: GraphNode) -> Seq<char> {
    match n {
        GraphNode::Artifact(_) => "Artifact"@,
        GraphNode::Decision(_) => "Decision"@,
        GraphNode::Constraint(_) => "Constraint"@,
        GraphNode::Fact(_) => "Fact"@,
        GraphNode::ProofObligation(_) => "ProofObligation"@,
        GraphNode::Evidence(_) => "Evidence"@,
    }
}

pub open spec fn node_id(n: GraphNode) -> Seq<char> {
    match n {
        GraphNode::Artifact(i) => i.0@,
        GraphNode::Decision(i) => i.0@,
        GraphNode::Constraint(i) => i.0@,
        GraphNode::Fact(i) => i.0@,
        GraphNode::ProofObligation(i) => i.0@,
        GraphNode::Evidence(i) => i.0@,
    }
}

/// `{"Variant":"id"}`: the JSON of a graph node.
pub open spec fn node_json(n: GraphNode) -> Seq<char> {
    node_json_parts(node_variant(n), node_id(n))
}

/// The serialized (snake case) name of a link kind.
pub open spec fn link_name(k: LinkKind) -> Seq<char> {
    match k {
        LinkKind::Contains => "contains"@,
        LinkKind::Defines => "defines"@,
        LinkKind::Produces => "produces"@,
        LinkKind::RelevantTo => "relevant_to"@,
        LinkKind::ParticipatesIn => "participates_in"@,
        LinkKind::Implements => "implements"@,
        LinkKind::DependsOn => "depends_on"@,
        LinkKind::Supersedes => "supersedes"@,
        LinkKind::Amends => "amends"@,
        LinkKind::ExceptionTo => "exception_to"@,
        LinkKind::VerifiedBy => "verified_by"@,
        LinkKind::DerivedFrom => "derived_from"@,
        LinkKind::EvidenceFor => "evidence_for"@,
        LinkKind::Requires => "requires"@,
        LinkKind::RequiredBy => "required_by"@,
    }
}

/// `{"from":…,"kind":"…","to":…}`: the JSON text of an edge; the model orders edges by it.
pub open spec fn edge_json(e: GraphEdge) -> Seq<char> {
    edge_json_parts(node_variant(e.from), node_id(e.from), e.kind, node_variant(e.to), node_id(e.to))
}

/// The JSON text of the edge `from_variant(from_id) -kind-> to_variant(to_id)`.
pub open spec fn edge_json_parts(
    from_variant: Seq<char>,
    from_id: Seq<char>,
    kind: LinkKind,
    to_variant: Seq<char>,
    to_id: Seq<char>,
) -> Seq<char> {
    "{\"from\":"@ + node_json_parts(from_variant, from_id) + ",\"kind\":"@ + json_string(link_name(kind))
        + ",\"to\":"@ + node_json_parts(to_variant, to_id) + "}"@
}

pub open spec fn node_json_parts(variant: Seq<char>, id: Seq<char>) -> Seq<char> {
    "{"@ + json_string(variant) + ":"@ + json_string(id) + "}"@
}

fn hex_digit_exec(d: u32) -> (c: char)
    requires
        d < 16,
    ensures
        c == hex_digit(d as nat),
{
    if d == 0 {
        '0'
    } else if d == 1 {
        '1'
    } else if d == 2 {
        '2'
    } else if d == 3 {
        '3'
    } else if d == 4 {
        '4'
    } else if d == 5 {
        '5'
    } else if d == 6 {
        '6'
    } else if d == 7 {
        '7'
    } else if d == 8 {
        '8'
    } else if d == 9 {
        '9'
    } else if d == 10 {
        'a'
    } else if d == 11 {
        'b'
    } else if d == 12 {
        'c'
    } else if d == 13 {
        'd'
    } else if d == 14 {
        'e'
    } else {
        'f'
    }
}

fn push_escaped(out: &mut Vec<char>, c: char)
    ensures
        final(out)@ == old(out)@ + json_escape_char(c),
{
    let ghost start = out@;
    if c == '"' {
        out.push('\\');
        out.push('"');
    } else if c == '\\' {
        out.push('\\');
        out.push('\\');
    } else if c == '\n' {
        out.push('\\');
        out.push('n');
    } else if c == '\r' {
        out.push('\\');
        out.push('r');
    } else if c == '\t' {
        out.push('\\');
        out.push('t');
    } else if c == '\x08' {
        out.push('\\');
        out.push('b');
    } else if c == '\x0C' {
        out.push('\\');
        out.push('f');
    } else if (c as u32) < 0x20 {
        out.push('\\');
        out.push('u');
        out.push('0');
        out.push('0');
        out.push(hex_digit_exec((c as u32) / 16));
        out.push(hex_digit_exec((c as u32) % 16));
    } else {
        out.push(c);
    }
    proof {
        assert(out@ =~= start + json_escape_char(c));
    }
}

/// A JSON string literal holding `s`.
pub fn json_string_exec(s: &str) -> (r: String)
    ensures
        r@ == json_string(s@),
{
    let v = chars_of(s);
    let mut out: Vec<char> = Vec::new();
    out.push('"');
    let mut i: usize = 0;
    while i < v.len()
        invariant
            i <= v@.len(),
            v@ == s@,
            out@ == seq!['"'] + json_escape(v@.subrange(0, i as int)),
        decreases v.len() - i,
    {
        push_escaped(&mut out, v[i]);
        proof {
            let p = v@.subrange(0, i + 1);
            assert(p.drop_last() =~= v@.subrange(0, i as int));
            assert(p.last() == v@[i as int]);
        }
        i = i + 1;
    }
    out.push('"');
    proof {
        assert(v@.subrange(0, v@.len() as int) =~= v@);
    }
    string_from_chars(out.as_slice())
}

fn node_variant_exec(n: &GraphNode) -> (r: String)
    ensures
        r@ == node_variant(*n),
{
    match n {
        GraphNode::Artifact(_) => own("Artifact"),
        GraphNode::Decision(_) => own("Decision"),
        GraphNode::Constraint(_) => own("Constraint"),
        GraphNode::Fact(_) => own("Fact"),
        GraphNode::ProofObligation(_) => own("ProofObligation"),
        GraphNode::Evidence(_) => own("Evidence"),
    }
}

fn node_id_exec(n: &GraphNode) -> (r: &String)
    ensures
        r@ == node_id(*n),
{
    match n {
        GraphNode::Artifact(i) => &i.0,
        GraphNode::Decision(i) => &i.0,
        GraphNode::Constraint(i) => &i.0,
        GraphNode::Fact(i) => &i.0,
        GraphNode::ProofObligation(i) => &i.0,
        GraphNode::Evidence(i) => &i.0,
    }
}

fn node_json_exec(n: &GraphNode) -> (r: String)
    ensures
        r@ == node_json(*n),
{
    let v = node_variant_exec(n);
    let a = json_string_exec(v.as_str());
    let b = json_string_exec(node_id_exec(n).as_str());
    let mut r = own("{");
    r.append(a.as_str());
    r.append(":");
    r.append(b.as_str());
    r.append("}");
    r
}

/// The serialized name of a link kind.
pub fn link_name_exec(k: LinkKind) -> (r: String)
    ensures
        r@ == link_name(k),
{
    match k {
        LinkKind::Contains => own("contains"),
        LinkKind::Defines => own("defines"),
        LinkKind::Produces => own("produces"),
        LinkKind::RelevantTo => own("relevant_to"),
        LinkKind::ParticipatesIn => own("participates_in"),
        LinkKind::Implements => own("implements"),
        LinkKind::DependsOn => own("depends_on"),
        LinkKind::Supersedes => own("supersedes"),
        LinkKind::Amends => own("amends"),
        LinkKind::ExceptionTo => own("exception_to"),
        LinkKind::VerifiedBy => own("verified_by"),
        LinkKind::DerivedFrom => own("derived_from"),
        LinkKind::EvidenceFor => own("evidence_for"),
        LinkKind::Requires => own("requires"),
        LinkKind::RequiredBy => own("required_by"),
    }
}

/// The JSON text of an edge.
pub fn edge_json_string(e: &GraphEdge) -> (r: String)
    ensures
        r@ == edge_json(*e),
{
    let from = node_json_exec(&e.from);
    let kind_name = link_name_exec(e.kind);
    let kind = json_string_exec(kind_name.as_str());
    let to = node_json_exec(&e.to);
    let mut r = own("{\"from\":");
    r.append(from.as_str());
    r.append(",\"kind\":");
    r.append(kind.as_str());
    r.append(",\"to\":");
    r.append(to.as_str());
    r.append("}");
    r
}


// ---------------------------------------------------------------------------
// Formulas
// ---------------------------------------------------------------------------

pub open spec fn formula_view(f: RelationalFormula) -> SExpr
    decreases f,
{
    match f {
        RelationalFormula::Bool(b) => SExpr::Bool(b),
        RelationalFormula::Name(n) => SExpr::Name(n@),
        RelationalFormula::Relation(n, a) => SExpr::Call(n@, strs(a@)),
        RelationalFormula::Eq(a, b) => SExpr::Eq(a@, b@),
        RelationalFormula::Ne(a, b) => SExpr::Ne(a@, b@),
        RelationalFormula::Not(x) => SExpr::Not(Box::new(formula_view(*x))),
        RelationalFormula::And(a, b) => SExpr::And(Box::new(formula_view(*a)), Box::new(formula_view(*b))),
        RelationalFormula::Or(a, b) => SExpr::Or(Box::new(formula_view(*a)), Box::new(formula_view(*b))),
        RelationalFormula::Implies(a, b) => SExpr::Implies(
            Box::new(formula_view(*a)),
            Box::new(formula_view(*b)),
        ),
        RelationalFormula::Forall { variable, entity_type, guard, body } => SExpr::Forall {
            var: variable@,
            ty: entity_type@,
            guard: match guard {
                Some(g) => Some(Box::new(formula_view(*g))),
                None => None,
            },
            body: Box::new(formula_view(*body)),
        },
        RelationalFormula::Exists { variable, entity_type, guard, body } => SExpr::Exists {
            var: variable@,
            ty: entity_type@,
            guard: match guard {
                Some(g) => Some(Box::new(formula_view(*g))),
                None => None,
            },
            body: Box::new(formula_view(*body)),
        },
    }
}

/// A formula has the shape of the ADRLogic expression it was lowered from.
impl View for RelationalFormula {
    type V = SExpr;

    open spec fn view(&self) -> SExpr {
        formula_view(*self)
    }
}

impl RelationalFormula {
    /// The formula of an ADRLogic expression: the same tree, node for node.
    pub fn from_expr(e: &Expr) -> (r: Self)
        ensures
            r@ == e@,
        decreases e,
    {
        match e {
            Expr::Bool(b) => RelationalFormula::Bool(*b),
            Expr::Name(n) => RelationalFormula::Name(n.clone()),
            Expr::Call(n, a) => RelationalFormula::Relation(n.clone(), clone_strings(a)),
            Expr::Eq(a, b) => RelationalFormula::Eq(a.clone(), b.clone()),
            Expr::Ne(a, b) => RelationalFormula::Ne(a.clone(), b.clone()),
            Expr::Not(x) => RelationalFormula::Not(Box::new(Self::from_expr(x))),
            Expr::And(a, b) => RelationalFormula::And(Box::new(Self::from_expr(a)), Box::new(Self::from_expr(b))),
            Expr::Or(a, b) => RelationalFormula::Or(Box::new(Self::from_expr(a)), Box::new(Self::from_expr(b))),
            Expr::Implies(a, b) => RelationalFormula::Implies(
                Box::new(Self::from_expr(a)),
                Box::new(Self::from_expr(b)),
            ),
            Expr::Forall { var, ty, guard, body } => RelationalFormula::Forall {
                variable: var.clone(),
                entity_type: ty.clone(),
                guard: match guard {
                    Some(g) => Some(Box::new(Self::from_expr(g))),
                    None => None,
                },
                body: Box::new(Self::from_expr(body)),
            },
            Expr::Exists { var, ty, guard, body } => RelationalFormula::Exists {
                variable: var.clone(),
                entity_type: ty.clone(),
                guard: match guard {
                    Some(g) => Some(Box::new(Self::from_expr(g))),
                    None => None,
                },
                body: Box::new(Self::from_expr(body)),
            },
        }
    }
}

impl Clone for RelationalFormula {
    fn clone(&self) -> (r: Self)
        ensures
            r@ == self@,
        decreases self,
    {
        match self {
            RelationalFormula::Bool(b) => RelationalFormula::Bool(*b),
            RelationalFormula::Name(n) => RelationalFormula::Name(n.clone()),
            RelationalFormula::Relation(n, a) => RelationalFormula::Relation(n.clone(), clone_strings(a)),
            RelationalFormula::Eq(a, b) => RelationalFormula::Eq(a.clone(), b.clone()),
            RelationalFormula::Ne(a, b) => RelationalFormula::Ne(a.clone(), b.clone()),
            RelationalFormula::Not(x) => RelationalFormula::Not(Box::new((**x).clone())),
            RelationalFormula::And(a, b) => RelationalFormula::And(Box::new((**a).clone()), Box::new((**b).clone())),
            RelationalFormula::Or(a, b) => RelationalFormula::Or(Box::new((**a).clone()), Box::new((**b).clone())),
            RelationalFormula::Implies(a, b) => RelationalFormula::Implies(
                Box::new((**a).clone()),
                Box::new((**b).clone()),
            ),
            RelationalFormula::Forall { variable, entity_type, guard, body } => RelationalFormula::Forall {
                variable: variable.clone(),
                entity_type: entity_type.clone(),
                guard: match guard {
                    Some(g) => Some(Box::new((**g).clone())),
                    None => None,
                },
                body: Box::new((**body).clone()),
            },
            RelationalFormula::Exists { variable, entity_type, guard, body } => RelationalFormula::Exists {
                variable: variable.clone(),
                entity_type: entity_type.clone(),
                guard: match guard {
                    Some(g) => Some(Box::new((**g).clone())),
                    None => None,
                },
                body: Box::new((**body).clone()),
            },
        }
    }
}

// ---------------------------------------------------------------------------
// Declarations
// ---------------------------------------------------------------------------

/// The view of an intent declaration: entity members as the set they denote.
pub enum SIntentDeclaration {
    Bool(Seq<char>),
    EntityType { name: Seq<char>, members: Seq<Seq<char>> },
    Relation { name: Seq<char>, arguments: Seq<Seq<char>> },
}

impl View for IntentDeclaration {
    type V = SIntentDeclaration;

    open spec fn view(&self) -> SIntentDeclaration {
        match self {
            IntentDeclaration::Bool(n) => SIntentDeclaration::Bool(n@),
            IntentDeclaration::EntityType { name, members } => SIntentDeclaration::EntityType {
                name: name@,
                members: strs(members@),
            },
            IntentDeclaration::Relation { name, arguments } => SIntentDeclaration::Relation {
                name: name@,
                arguments: strs(arguments@),
            },
        }
    }
}

/// `d` is the intent declaration of ADR declaration `x`: entity members become an
/// ordered set (sorted, each once).
pub open spec fn intent_of(x: SDecl, d: IntentDeclaration) -> bool {
    match (x, d) {
        (SDecl::Bool(n), IntentDeclaration::Bool(m)) => n == m@,
        (SDecl::EntityType { name, members }, IntentDeclaration::EntityType { name: n2, members: m2 }) => {
            &&& name == n2@
            &&& strictly_sorted(m2@)
            &&& forall|m: Seq<char>| #[trigger] set_has(m2@, m) <==> members.contains(m)
        },
        (SDecl::Relation { name, args }, IntentDeclaration::Relation { name: n2, arguments }) => {
            name == n2@ && args == strs(arguments@)
        },
        _ => false,
    }
}

/// A string set kept as a strictly sorted vector.
pub(crate) fn sorted_set(v: &Vec<String>) -> (r: Vec<String>)
    ensures
        strictly_sorted(r@),
        forall|m: Seq<char>| #[trigger] set_has(r@, m) <==> strs(v@).contains(m),
{
    let mut r: Vec<String> = Vec::new();
    let mut i: usize = 0;
    while i < v.len()
        invariant
            i <= v@.len(),
            strictly_sorted(r@),
            forall|m: Seq<char>| #[trigger] set_has(r@, m) <==> set_has(v@.take(i as int), m),
        decreases v.len() - i,
    {
        let ghost r0 = r@;
        let x = v[i].clone();
        upsert(&mut r, x);
        proof {
            assert forall|m: Seq<char>| #[trigger] set_has(r@, m) <==> set_has(v@.take(i + 1), m) by {
                assert(has_key(r@, m) <==> (has_key(r0, m) || m == x@));
                assert(set_has(r0, m) <==> set_has(v@.take(i as int), m));
                if set_has(r@, m) {
                    let j = choose|j: int| 0 <= j < r@.len() && #[trigger] r@[j]@ == m;
                    assert(r@[j].key() == m);
                    if has_key(r0, m) {
                        let q = choose|q: int| 0 <= q < r0.len() && #[trigger] r0[q].key() == m;
                        assert(r0[q]@ == m);
                        let w = choose|w: int| 0 <= w < i && #[trigger] v@.take(i as int)[w]@ == m;
                        assert(v@.take(i + 1)[w]@ == m);
                    } else {
                        assert(v@.take(i + 1)[i as int]@ == m);
                    }
                }
                if set_has(v@.take(i + 1), m) {
                    let w = choose|w: int| 0 <= w < i + 1 && #[trigger] v@.take(i + 1)[w]@ == m;
                    if w < i {
                        assert(v@.take(i as int)[w]@ == m);
                        let q = choose|q: int| 0 <= q < r0.len() && #[trigger] r0[q]@ == m;
                        assert(r0[q].key() == m);
                    }
                    assert(has_key(r@, m));
                    let j = choose|j: int| 0 <= j < r@.len() && #[trigger] r@[j].key() == m;
                    assert(r@[j]@ == m);
                }
            };
        }
        i = i + 1;
    }
    proof {
        assert(v@.take(v@.len() as int) =~= v@);
        assert forall|m: Seq<char>| #[trigger] set_has(r@, m) <==> strs(v@).contains(m) by {
            if set_has(v@, m) {
                let w = choose|w: int| 0 <= w < v@.len() && #[trigger] v@[w]@ == m;
                assert(strs(v@)[w] == m);
            }
            if strs(v@).contains(m) {
                let w = choose|w: int| 0 <= w < strs(v@).len() && strs(v@)[w] == m;
                assert(v@[w]@ == m);
            }
        };
    }
    r
}

/// The intent vocabulary of a list of ADR declarations, one for one.
pub fn declarations_from(input: &Vec<Decl>) -> (r: Vec<IntentDeclaration>)
    ensures
        r@.len() == input@.len(),
        forall|i: int| 0 <= i < input@.len() ==> intent_of(input@[i]@, #[trigger] r@[i]),
{
    let mut out: Vec<IntentDeclaration> = Vec::new();
    let mut i: usize = 0;
    while i < input.len()
        invariant
            i <= input@.len(),
            out@.len() == i,
            forall|j: int| 0 <= j < i ==> intent_of(input@[j]@, #[trigger] out@[j]),
        decreases input.len() - i,
    {
        let d = match &input[i] {
            Decl::Bool(n) => IntentDeclaration::Bool(n.clone()),
            Decl::EntityType { name, members } => {
                let m = sorted_set(members);
                IntentDeclaration::EntityType { name: name.clone(), members: m }
            },
            Decl::Relation { name, args } => IntentDeclaration::Relation {
                name: name.clone(),
                arguments: clone_strings(args),
            },
        };
        out.push(d);
        i = i + 1;
    }
    out
}

// ---------------------------------------------------------------------------
// Coverage and facts
// ---------------------------------------------------------------------------

/// A coverage claim speaks about `relation` within `scope`.
pub open spec fn coverage_matches(c: FactCoverage, relation: Seq<char>, scope: SScope) -> bool {
    c.relation@ == relation && spec_covers(c.scope@, scope)
}

/// The world assumption for `relation` in `scope`: none without a matching claim,
/// partial when any matching claim is partial, closed otherwise.
pub open spec fn coverage_of(cs: Seq<FactCoverage>, relation: Seq<char>, scope: SScope) -> Option<WorldAssumption> {
    if !exists|i: int| 0 <= i < cs.len() && coverage_matches(#[trigger] cs[i], relation, scope) {
        None
    } else if exists|i: int| 0 <= i < cs.len() && coverage_matches(#[trigger] cs[i], relation, scope) && cs[i].world == WorldAssumption::Partial {
        Some(WorldAssumption::Partial)
    } else {
        Some(WorldAssumption::Closed)
    }
}

/// The JSON key of the edge from the artifact a fact was read from to the fact.
pub open spec fn produces_key(f: ProjectFact) -> Seq<char> {
    edge_json_parts("Artifact"@, f.provenance.source@, LinkKind::Produces, "Fact"@, f.id.0@)
}

/// `e` is the edge from the artifact a fact was read from to the fact.
pub open spec fn produces_edge(f: ProjectFact, e: GraphEdge) -> bool {
    &&& e.from matches GraphNode::Artifact(a) && a.0@ == f.provenance.source@
    &&& e.kind == LinkKind::Produces
    &&& e.to matches GraphNode::Fact(x) && x.0@ == f.id.0@
}

impl ProjectModel {
    /// The world assumption the coverage claims give `relation` within `scope`.
    pub fn coverage_for(&self, relation: &str, scope: &CoverageScope) -> (r: Option<WorldAssumption>)
        ensures
            r == coverage_of(self.fact_coverage@, relation@, scope@),
    {
        let cs = &self.fact_coverage;
        let mut any = false;
        let mut partial = false;
        let mut i: usize = 0;
        while i < cs.len()
            invariant
                i <= cs@.len(),
                any == exists|j: int| 0 <= j < i && coverage_matches(#[trigger] cs@[j], relation@, scope@),
                partial == exists|j: int| 0 <= j < i && coverage_matches(#[trigger] cs@[j], relation@, scope@)
                    && cs@[j].world == WorldAssumption::Partial,
            decreases cs.len() - i,
        {
            let c = &cs[i];
            if str_eq(c.relation.as_str(), relation) && c.scope.covers(scope) {
                any = true;
                if c.world == WorldAssumption::Partial {
                    partial = true;
                }
                proof {
                    assert(coverage_matches(cs@[i as int], relation@, scope@));
                }
            }
            i = i + 1;
        }
        if !any {
            None
        } else if partial {
            Some(WorldAssumption::Partial)
        } else {
            Some(WorldAssumption::Closed)
        }
    }

    /// Adds an edge; the edge list stays a set ordered by the edges' JSON text.
    pub fn add_edge(&mut self, e: GraphEdge)
        requires
            strictly_sorted(old(self).edges@),
        ensures
            strictly_sorted(final(self).edges@),
            final(self).edges@.contains(e),
            forall|x: GraphEdge| #[trigger] final(self).edges@.contains(x) ==> x == e || old(self).edges@.contains(x),
            forall|x: GraphEdge| #[trigger] old(self).edges@.contains(x) && edge_json(x) != edge_json(e) ==> final(self).edges@.contains(x),
            forall|k: Seq<char>| #[trigger] has_key(final(self).edges@, k) <==> (has_key(old(self).edges@, k) || k == edge_json(e)),
            final(self).artifacts == old(self).artifacts,
            final(self).decisions == old(self).decisions,
            final(self).constraints == old(self).constraints,
            final(self).facts == old(self).facts,
            final(self).declarations == old(self).declarations,
            final(self).fact_coverage == old(self).fact_coverage,
    {
        upsert(&mut self.edges, e);
    }

    /// Sorts the edges by their JSON text and drops repeats.
    pub fn normalize(&mut self)
        ensures
            strictly_sorted(final(self).edges@),
            forall|x: GraphEdge| #[trigger] final(self).edges@.contains(x) ==> old(self).edges@.contains(x),
            forall|x: GraphEdge| #[trigger] old(self).edges@.contains(x) ==> has_key(final(self).edges@, edge_json(x)),
            final(self).artifacts == old(self).artifacts,
            final(self).decisions == old(self).decisions,
            final(self).constraints == old(self).constraints,
            final(self).facts == old(self).facts,
            final(self).declarations == old(self).declarations,
            final(self).fact_coverage == old(self).fact_coverage,
    {
        let mut edges: Vec<GraphEdge> = Vec::new();
        std::mem::swap(&mut edges, &mut self.edges);
        self.edges = sort_edges(edges);
    }

    /// Adds one fact and the edge from its artifact.
    fn add_fact(&mut self, f: ProjectFact)
        requires
            strictly_sorted(old(self).edges@),
            strictly_sorted(old(self).facts@),
        ensures
            strictly_sorted(final(self).edges@),
            strictly_sorted(final(self).facts@),
            forall|k: Seq<char>| #[trigger] has_key(final(self).facts@, k) <==> (has_key(old(self).facts@, k) || k == f.id.0@),
            forall|x: ProjectFact| #[trigger] final(self).facts@.contains(x) ==> x == f || old(self).facts@.contains(x),
            final(self).facts@.contains(f),
            forall|x: ProjectFact| #[trigger] old(self).facts@.contains(x) && x.id.0@ != f.id.0@ ==> final(self).facts@.contains(x),
            forall|k: Seq<char>| #[trigger] has_key(final(self).edges@, k) <==> (has_key(old(self).edges@, k) || k == produces_key(f)),
            forall|x: GraphEdge| #[trigger] final(self).edges@.contains(x) ==> old(self).edges@.contains(x) || produces_edge(f, x),
            final(self).artifacts == old(self).artifacts,
            final(self).decisions == old(self).decisions,
            final(self).constraints == old(self).constraints,
            final(self).declarations == old(self).declarations,
            final(self).fact_coverage == old(self).fact_coverage,
    {
        let edge = GraphEdge {
            from: GraphNode::Artifact(ArtifactId(f.provenance.source.clone())),
            kind: LinkKind::Produces,
            to: GraphNode::Fact(f.id.clone()),
        };
        proof {
            assert(produces_edge(f, edge));
            assert(edge_json(edge) == produces_key(f));
        }
        upsert(&mut self.edges, edge);
        upsert(&mut self.facts, f);
    }

    /// Adds facts, each with the edge from the artifact it was read from; a fact
    /// replaces an earlier one with the same identifier.
    pub fn add_facts(&mut self, facts: Vec<ProjectFact>)
        requires
            strictly_sorted(old(self).edges@),
            strictly_sorted(old(self).facts@),
        ensures
            added_facts(*old(self), *final(self), facts@),
    {
        let ghost m0 = *self;
        let ghost fs = facts@;
        let mut rest = facts;
        let n = rest.len();
        let mut i: usize = 0;
        while rest.len() > 0
            invariant
                i <= fs.len(),
                fs.len() == n,
                rest@ == fs.subrange(i as int, fs.len() as int),
                strictly_sorted(self.edges@),
                strictly_sorted(self.facts@),
                forall|k: Seq<char>| #[trigger] has_key(self.facts@, k) <==> (has_key(m0.facts@, k) || has_key(fs.take(i as int), k)),
                forall|x: ProjectFact| #[trigger] self.facts@.contains(x) ==> fs.contains(x) || m0.facts@.contains(x),
                forall|p: int| 0 <= p < i && is_last_id(fs.take(i as int), p) ==> self.facts@.contains(#[trigger] fs[p]),
                forall|k: Seq<char>| #[trigger] has_key(self.edges@, k) <==> has_key(m0.edges@, k)
                    || exists|p: int| 0 <= p < i && k == produces_key(#[trigger] fs[p]),
                forall|x: GraphEdge| #[trigger] self.edges@.contains(x) ==> m0.edges@.contains(x)
                    || exists|p: int| 0 <= p < i && produces_edge(#[trigger] fs[p], x),
                self.artifacts == m0.artifacts,
                self.decisions == m0.decisions,
                self.constraints == m0.constraints,
                self.declarations == m0.declarations,
                self.fact_coverage == m0.fact_coverage,
            decreases rest.len(),
        {
            let f = rest.remove(0);
            let ghost s0 = *self;
            proof {
                assert(f == fs[i as int]);
            }
            self.add_fact(f);
            proof {
                assert forall|k: Seq<char>| #[trigger] has_key(self.facts@, k) <==> (has_key(m0.facts@, k) || has_key(fs.take(i + 1), k)) by {
                    assert(has_key(s0.facts@, k) <==> (has_key(m0.facts@, k) || has_key(fs.take(i as int), k)));
                    if has_key(fs.take(i + 1), k) {
                        let j = choose|j: int| 0 <= j < i + 1 && #[trigger] fs.take(i + 1)[j].key() == k;
                        if j < i {
                            assert(fs.take(i as int)[j].key() == k);
                        }
                    }
                    if has_key(fs.take(i as int), k) {
                        let j = choose|j: int| 0 <= j < i && #[trigger] fs.take(i as int)[j].key() == k;
                        assert(fs.take(i + 1)[j].key() == k);
                    }
                    if k == f.id.0@ {
                        assert(fs.take(i + 1)[i as int].key() == k);
                    }
                };
                assert forall|x: ProjectFact| #[trigger] self.facts@.contains(x) implies fs.contains(x) || m0.facts@.contains(x) by {
                    if x == f {
                        assert(fs[i as int] == f);
                    } else {
                        assert(s0.facts@.contains(x));
                    }
                };
                assert forall|p: int| 0 <= p < i + 1 && is_last_id(fs.take(i + 1), p) implies self.facts@.contains(#[trigger] fs[p]) by {
                    if p < i {
                        assert(fs.take(i + 1)[i as int] == fs[i as int]);
                        assert(fs[i as int].id.0@ != fs[p].id.0@);
                        assert forall|j: int| p < j < i implies (#[trigger] fs.take(i as int)[j]).id.0@ != fs.take(i as int)[p].id.0@ by {
                            assert(fs.take(i + 1)[j] == fs.take(i as int)[j]);
                        };
                        assert(is_last_id(fs.take(i as int), p));
                        assert(s0.facts@.contains(fs[p]));
                    }
                };
                assert forall|k: Seq<char>| #[trigger] has_key(self.edges@, k) <==> has_key(m0.edges@, k)
                    || exists|p: int| 0 <= p < i + 1 && k == produces_key(#[trigger] fs[p]) by {
                    assert(has_key(s0.edges@, k) <==> has_key(m0.edges@, k)
                        || exists|p: int| 0 <= p < i && k == produces_key(#[trigger] fs[p]));
                    if k == produces_key(f) {
                        assert(k == produces_key(fs[i as int]));
                    }
                    if exists|p: int| 0 <= p < i + 1 && k == produces_key(#[trigger] fs[p]) {
                        let p = choose|p: int| 0 <= p < i + 1 && k == produces_key(#[trigger] fs[p]);
                        if p < i {
                            assert(exists|p2: int| 0 <= p2 < i && k == produces_key(#[trigger] fs[p2]));
                        }
                    }
                };
                assert forall|x: GraphEdge| #[trigger] self.edges@.contains(x) implies m0.edges@.contains(x)
                    || exists|p: int| 0 <= p < i + 1 && produces_edge(#[trigger] fs[p], x) by {
                    if s0.edges@.contains(x) {
                        if !m0.edges@.contains(x) {
                            let p = choose|p: int| 0 <= p < i && produces_edge(#[trigger] fs[p], x);
                            assert(produces_edge(fs[p], x));
                        }
                    } else {
                        assert(produces_edge(fs[i as int], x));
                    }
                };
            }
            i = i + 1;
        }
        proof {
            assert(fs.take(fs.len() as int) =~= fs);
        }
    }
}

/// `new` is `old` with `facts` added: each with the edge from the artifact it was
/// read from; of facts with one identifier the last stays.
pub open spec fn added_facts(old: ProjectModel, new: ProjectModel, facts: Seq<ProjectFact>) -> bool {
    &&& strictly_sorted(new.edges@)
    &&& strictly_sorted(new.facts@)
    &&& forall|k: Seq<char>| #[trigger] has_key(new.facts@, k) <==> (has_key(old.facts@, k) || has_key(facts, k))
    &&& forall|x: ProjectFact| #[trigger] new.facts@.contains(x) ==> facts.contains(x) || old.facts@.contains(x)
    &&& forall|i: int| 0 <= i < facts.len() && is_last_id(facts, i) ==> new.facts@.contains(#[trigger] facts[i])
    &&& forall|k: Seq<char>| #[trigger] has_key(new.edges@, k) <==> has_key(old.edges@, k)
        || exists|i: int| 0 <= i < facts.len() && k == produces_key(#[trigger] facts[i])
    &&& forall|x: GraphEdge| #[trigger] new.edges@.contains(x) ==> old.edges@.contains(x)
        || exists|i: int| 0 <= i < facts.len() && produces_edge(#[trigger] facts[i], x)
    &&& new.artifacts == old.artifacts
    &&& new.decisions == old.decisions
    &&& new.constraints == old.constraints
    &&& new.declarations == old.declarations
    &&& new.fact_coverage == old.fact_coverage
}

/// No later fact of `s` has the identifier of fact `i`.
pub open spec fn is_last_id(s: Seq<ProjectFact>, i: int) -> bool {
    forall|j: int| i < j < s.len() ==> (#[trigger] s[j]).id.0@ != s[i].id.0@
}

/// The edges sorted by their JSON text, each kept once.
pub fn sort_edges(edges: Vec<GraphEdge>) -> (r: Vec<GraphEdge>)
    ensures
        strictly_sorted(r@),
        forall|x: GraphEdge| #[trigger] r@.contains(x) ==> edges@.contains(x),
        forall|x: GraphEdge| #[trigger] edges@.contains(x) ==> has_key(r@, edge_json(x)),
{
    let ghost e0 = edges@;
    let mut out: Vec<GraphEdge> = Vec::new();
    let mut i: usize = 0;
    while i < edges.len()
        invariant
            i <= edges@.len(),
            edges@ == e0,
            strictly_sorted(out@),
            forall|x: GraphEdge| #[trigger] out@.contains(x) ==> e0.contains(x),
            forall|j: int| 0 <= j < i ==> has_key(out@, edge_json(#[trigger] e0[j])),
        decreases edges.len() - i,
    {
        let ghost o0 = out@;
        let e = edges[i].clone();
        upsert(&mut out, e);
        proof {
            assert forall|j: int| 0 <= j < i + 1 implies has_key(out@, edge_json(#[trigger] e0[j])) by {
                if j < i {
                    assert(has_key(o0, edge_json(e0[j])));
                }
            };
            assert(e0.contains(e0[i as int]));
        }
        i = i + 1;
    }
    proof {
        assert forall|x: GraphEdge| #[trigger] e0.contains(x) implies has_key(out@, edge_json(x)) by {
            let j = choose|j: int| 0 <= j < e0.len() && e0[j] == x;
            assert(has_key(out@, edge_json(e0[j])));
        };
    }
    out
}

/// The JSON texts of edges, in order.
pub open spec fn edge_keys(s: Seq<GraphEdge>) -> Seq<Seq<char>> {
    s.map_values(|e: GraphEdge| edge_json(e))
}

pub fn push_edge(out: &mut Vec<GraphEdge>, e: GraphEdge)
    ensures
        edge_keys(final(out)@) == edge_keys(old(out)@).push(edge_json(e)),
{
    let ghost o0 = out@;
    out.push(e);
    proof {
        assert(edge_keys(out@) =~= edge_keys(o0).push(edge_json(e)));
    }
}

/// The keys of edges kept from `raw` are exactly the keys of `raw`.
pub proof fn lemma_kept_edge_keys(raw: Seq<GraphEdge>, r: Seq<GraphEdge>)
    requires
        forall|x: GraphEdge| #[trigger] r.contains(x) ==> raw.contains(x),
        forall|x: GraphEdge| #[trigger] raw.contains(x) ==> has_key(r, edge_json(x)),
    ensures
        forall|k: Seq<char>| #[trigger] has_key(r, k) <==> edge_keys(raw).contains(k),
{
    assert forall|k: Seq<char>| #[trigger] has_key(r, k) <==> edge_keys(raw).contains(k) by {
        if has_key(r, k) {
            let q = choose|q: int| 0 <= q < r.len() && #[trigger] r[q].key() == k;
            assert(r.contains(r[q]));
            let p = choose|p: int| 0 <= p < raw.len() && raw[p] == r[q];
            assert(edge_keys(raw)[p] == k);
        }
        if edge_keys(raw).contains(k) {
            let p = choose|p: int| 0 <= p < edge_keys(raw).len() && edge_keys(raw)[p] == k;
            assert(raw.contains(raw[p]));
        }
    };
}

} // verus!
