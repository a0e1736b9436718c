//! Model checking of Quint models: which definitions are well formed, how the
//! checker is invoked, and what its output establishes.
use vstd::prelude::*;
use crate::adr::{Error, strs};
use crate::evidence::{EvidenceValidity, InputFingerprint, VerificationStatus, fingerprint_views, mentions};
use crate::project::{ArtifactId, EvidenceId, GraphEdge, GraphNode, LinkKind, ProofObligationId, edge_json_parts};
use crate::roots::{SemanticInput, VerificationRoots, identity_of, joined};
use crate::text::{cat, cat3, own, str_eq};
use crate::project::{clone_pairs, clone_strings};

verus! {

/// The model checker Quint drives.
#[derive(Debug, Clone, Copy, PartialEq, Eq, Structural)]
pub enum ModelCheckerBackend {
    Tlc,
    Apalache,
}

/// The kind of property checked.
#[derive(Debug, Clone, Copy, PartialEq, Eq, Structural)]
pub enum ModelPropertyKind {
    Invariant,
    Temporal,
}

/// Whether a check expects no counterexample or requires one (a behavior witness).
#[derive(Debug, Clone, Copy, PartialEq, Eq, Structural)]
pub enum ExpectedModelCheckerOutcome {
    NoCounterexample,
    CounterexampleRequired,
}

/// How much of the state space a result covers.
#[derive(Debug, Clone, Copy, PartialEq, Eq, Structural)]
pub enum ExplorationSemantics {
    ExhaustiveFinite,
    Bounded { max_steps: u64 },
}

/// Whether the checker ran to completion.
#[derive(Debug, Clone, Copy, PartialEq, Eq, Structural)]
pub enum CompletionSemantics {
    Complete,
    IncompleteTimeout,
    Unsupported,
    InfrastructureError,
}

/// What a model result may be taken to establish.
#[derive(Debug)]
pub struct FormalModelAuthority {
    pub claim: String,
    pub scope: String,
    pub does_not_prove: Vec<String>,
}

/// The states a checker explored.
#[derive(Debug)]
pub struct ExploredStateStats {
    pub generated_states: Option<u64>,
    pub distinct_states: Option<u64>,
    pub states_left: Option<u64>,
    pub depth: Option<u64>,
    pub duration_ms: u128,
}

/// One configured model check (constants and bounds as JSON text).
#[derive(Debug)]
pub struct ModelCheckDefinition {
    pub id: String,
    pub model_id: String,
    pub model: String,
    pub property_id: String,
    pub property_name: String,
    pub property_kind: ModelPropertyKind,
    pub expected_outcome: ExpectedModelCheckerOutcome,
    pub backend: ModelCheckerBackend,
    pub quint_version: String,
    pub backend_version: String,
    pub main: Option<String>,
    pub init: String,
    pub step: String,
    pub constants: Vec<(String, String)>,
    pub bounds: Vec<(String, String)>,
    pub model_bindings: Vec<(String, String)>,
    pub fairness: Vec<String>,
    pub max_steps: Option<u64>,
    pub timeout_ms: u64,
    pub semantic_flags: Vec<String>,
    pub authority: FormalModelAuthority,
    pub source: String,
}

/// The problem with a definition, if any: identifiers, property name and pinned
/// versions present; fairness recorded for temporal checks; TLC unbounded and
/// Apalache bounded.
pub open spec fn definition_problem(d: ModelCheckDefinition) -> Option<Seq<char>> {
    if d.id@.len() == 0 || d.model_id@.len() == 0 || d.property_id@.len() == 0 || d.property_name@.len() == 0
        || d.quint_version@.len() == 0 || d.backend_version@.len() == 0 {
        Some(d.source@ + ": model check IDs, property name, and pinned tool versions are required"@)
    } else if d.property_kind == ModelPropertyKind::Temporal && d.fairness@.len() == 0 {
        Some(d.source@ + ": temporal checks must record explicit fairness assumptions"@)
    } else if d.backend == ModelCheckerBackend::Tlc && d.max_steps is Some {
        Some(d.source@ + ": TLC exhaustive evidence must not declare max_steps"@)
    } else if d.backend == ModelCheckerBackend::Apalache && d.max_steps is None {
        Some(d.source@ + ": Apalache bounded evidence must explicitly declare max_steps"@)
    } else {
        None
    }
}

/// Checks that a model check definition is well formed.
pub fn validate_definition(d: &ModelCheckDefinition) -> (r: Result<(), Error>)
    ensures
        match definition_problem(*d) {
            Some(m) => r matches Err(Error::ProviderFailure(x)) && x@ == m,
            None => r is Ok,
        },
{
    if crate::text::is_empty_str(d.id.as_str()) || crate::text::is_empty_str(d.model_id.as_str()) || crate::text::is_empty_str(d.property_id.as_str())
        || crate::text::is_empty_str(d.property_name.as_str()) || crate::text::is_empty_str(d.quint_version.as_str()) || crate::text::is_empty_str(d.backend_version.as_str()) {
        return Err(Error::ProviderFailure(cat(d.source.as_str(), ": model check IDs, property name, and pinned tool versions are required")));
    }
    if d.property_kind == ModelPropertyKind::Temporal && d.fairness.len() == 0 {
        return Err(Error::ProviderFailure(cat(d.source.as_str(), ": temporal checks must record explicit fairness assumptions")));
    }
    if d.backend == ModelCheckerBackend::Tlc && d.max_steps.is_some() {
        return Err(Error::ProviderFailure(cat(d.source.as_str(), ": TLC exhaustive evidence must not declare max_steps")));
    }
    if d.backend == ModelCheckerBackend::Apalache && d.max_steps.is_none() {
        return Err(Error::ProviderFailure(cat(d.source.as_str(), ": Apalache bounded evidence must explicitly declare max_steps")));
    }
    Ok(())
}

/// TLC explores a finite model exhaustively; Apalache within its step bound (10
/// when none is given).
pub open spec fn exploration_of(d: ModelCheckDefinition) -> ExplorationSemantics {
    match d.backend {
        ModelCheckerBackend::Tlc => ExplorationSemantics::ExhaustiveFinite,
        ModelCheckerBackend::Apalache => ExplorationSemantics::Bounded {
            max_steps: match d.max_steps {
                Some(n) => n,
                None => 10,
            },
        },
    }
}

pub fn exploration(d: &ModelCheckDefinition) -> (r: ExplorationSemantics)
    ensures
        r == exploration_of(*d),
{
    match d.backend {
        ModelCheckerBackend::Tlc => ExplorationSemantics::ExhaustiveFinite,
        ModelCheckerBackend::Apalache => ExplorationSemantics::Bounded {
            max_steps: match d.max_steps {
                Some(n) => n,
                None => 10,
            },
        },
    }
}

pub open spec fn cli_name(b: ModelCheckerBackend) -> Seq<char> {
    match b {
        ModelCheckerBackend::Tlc => "tlc"@,
        ModelCheckerBackend::Apalache => "apalache"@,
    }
}

fn cli_name_exec(b: ModelCheckerBackend) -> (r: String)
    ensures
        r@ == cli_name(b),
{
    match b {
        ModelCheckerBackend::Tlc => own("tlc"),
        ModelCheckerBackend::Apalache => own("apalache"),
    }
}

/// The arguments of `quint verify` for a definition whose model is at `model_path`.
pub open spec fn verify_arguments(d: ModelCheckDefinition, model_path: Seq<char>) -> Seq<Seq<char>> {
    let base = seq!["verify"@, model_path, "--backend"@, cli_name(d.backend), "--init"@, d.init@, "--step"@, d.step@, "--verbosity"@, "3"@];
    let with_main = match d.main {
        Some(m) => base + seq!["--main"@, m@],
        None => base,
    };
    let with_property = match d.property_kind {
        ModelPropertyKind::Invariant => with_main + seq!["--invariant"@, d.property_name@],
        ModelPropertyKind::Temporal => with_main + seq!["--temporal"@, d.property_name@],
    };
    let with_steps = match d.max_steps {
        Some(n) => with_property + seq!["--max-steps"@, crate::text::decimal(n as nat)],
        None => with_property,
    };
    let with_version = if d.backend == ModelCheckerBackend::Apalache {
        with_steps + seq!["--apalache-version"@, d.backend_version@]
    } else {
        with_steps
    };
    with_version + strs(d.semantic_flags@)
}

fn push_two(v: &mut Vec<String>, a: String, b: String)
    ensures
        strs(final(v)@) == strs(old(v)@) + seq![a@, b@],
{
    let ghost v0 = v@;
    v.push(a);
    v.push(b);
    proof {
        assert(strs(v@) =~= strs(v0) + seq![a@, b@]);
    }
}

/// The arguments of `quint verify` for a definition whose model is at `model_path`.
pub fn quint_arguments(d: &ModelCheckDefinition, model_path: &str) -> (r: Vec<String>)
    ensures
        strs(r@) == verify_arguments(*d, model_path@),
{
    let mut args: Vec<String> = Vec::new();
    args.push(own("verify"));
    args.push(own(model_path));
    args.push(own("--backend"));
    args.push(cli_name_exec(d.backend));
    args.push(own("--init"));
    args.push(own(d.init.as_str()));
    args.push(own("--step"));
    args.push(own(d.step.as_str()));
    args.push(own("--verbosity"));
    args.push(own("3"));
    proof {
        assert(strs(args@) =~= seq!["verify"@, model_path@, "--backend"@, cli_name(d.backend), "--init"@, d.init@, "--step"@, d.step@, "--verbosity"@, "3"@]);
    }
    match &d.main {
        Some(m) => push_two(&mut args, own("--main"), own(m.as_str())),
        None => {},
    }
    match d.property_kind {
        ModelPropertyKind::Invariant => push_two(&mut args, own("--invariant"), own(d.property_name.as_str())),
        ModelPropertyKind::Temporal => push_two(&mut args, own("--temporal"), own(d.property_name.as_str())),
    }
    match d.max_steps {
        Some(n) => push_two(&mut args, own("--max-steps"), crate::text::decimal_string(n)),
        None => {},
    }
    if d.backend == ModelCheckerBackend::Apalache {
        push_two(&mut args, own("--apalache-version"), own(d.backend_version.as_str()));
    }
    let mut i: usize = 0;
    let ghost a0 = strs(args@);
    while i < d.semantic_flags.len()
        invariant
            i <= d.semantic_flags@.len(),
            strs(args@) == a0 + strs(d.semantic_flags@.take(i as int)),
        decreases d.semantic_flags.len() - i,
    {
        let ghost b = strs(args@);
        args.push(own(d.semantic_flags[i].as_str()));
        proof {
            assert(strs(args@) =~= b.push(d.semantic_flags@[i as int]@));
            assert(strs(d.semantic_flags@.take(i + 1)) =~= strs(d.semantic_flags@.take(i as int)).push(d.semantic_flags@[i as int]@));
        }
        i = i + 1;
    }
    proof {
        assert(d.semantic_flags@.take(d.semantic_flags@.len() as int) =~= d.semantic_flags@);
    }
    args
}

// ---------------------------------------------------------------------------
// What the checker's output establishes
// ---------------------------------------------------------------------------

/// `str`'s `Debug` text of a string: quoted, with escapes.
pub uninterp spec fn debug_text(s: Seq<char>) -> Seq<char>;

/// `format!("{:?}", s)` for a string slice (`<str as Debug>::fmt`).
#[verifier::external_body]
fn debug_quoted(s: &str) -> (r: String)
    ensures
        r@ == debug_text(s@),
{
    format!("{:?}", s)
}

/// The index after the word starting at `i`: the first whitespace at or after it.
pub open spec fn word_end(s: Seq<char>, i: int) -> int
    decreases s.len() - i,
{
    if i < 0 || i >= s.len() || crate::text::is_trim_ws(s[i]) {
        i
    } else {
        word_end(s, i + 1)
    }
}

/// The first whitespace-separated word of `s` (`split_whitespace().next()`).
pub open spec fn first_word(s: Seq<char>) -> Option<Seq<char>> {
    let lo = crate::text::trim_start_index(s, 0);
    if lo >= s.len() {
        None
    } else {
        Some(s.subrange(lo, word_end(s, lo)))
    }
}

/// The word after `prefix` at the start of `line`.
pub open spec fn version_after(line: Seq<char>, prefix: Seq<char>) -> Option<Seq<char>> {
    if crate::text::occurs_at(line, 0, prefix) {
        first_word(line.subrange(prefix.len() as int, line.len() as int))
    } else {
        None
    }
}

pub open spec fn version_in_lines(ls: Seq<Seq<char>>, prefix: Seq<char>) -> Option<Seq<char>>
    decreases ls.len(),
{
    if ls.len() == 0 {
        None
    } else {
        match version_after(ls[0], prefix) {
            Some(v) => Some(v),
            None => version_in_lines(ls.drop_first(), prefix),
        }
    }
}

pub open spec fn version_prefix(b: ModelCheckerBackend) -> Seq<char> {
    match b {
        ModelCheckerBackend::Tlc => "TLC2 Version "@,
        ModelCheckerBackend::Apalache => "# APALACHE version: "@,
    }
}

/// The backend version the checker's output reports: the word after the backend's
/// banner on the first line that carries it.
pub open spec fn detected_backend_version(b: ModelCheckerBackend, output: Seq<char>) -> Option<Seq<char>> {
    version_in_lines(crate::document::lines_from(output, 0), version_prefix(b))
}

proof fn lemma_word_end_bounds(s: Seq<char>, i: int)
    requires
        0 <= i <= s.len(),
    ensures
        i <= word_end(s, i) <= s.len(),
    decreases s.len() - i,
{
    if i < s.len() && !crate::text::is_trim_ws(s[i]) {
        lemma_word_end_bounds(s, i + 1);
    }
}

fn first_word_exec(s: &Vec<char>) -> (r: Option<String>)
    ensures
        match r {
            Some(w) => first_word(s@) == Some(w@),
            None => first_word(s@) is None,
        },
{
    let mut lo: usize = 0;
    while lo < s.len() && crate::text::is_trim_ws_exec(s[lo])
        invariant
            lo <= s@.len(),
            crate::text::trim_start_index(s@, 0) == crate::text::trim_start_index(s@, lo as int),
        decreases s.len() - lo,
    {
        lo = lo + 1;
    }
    if lo >= s.len() {
        return None;
    }
    let mut j: usize = lo;
    while j < s.len() && !crate::text::is_trim_ws_exec(s[j])
        invariant
            lo <= j <= s@.len(),
            word_end(s@, lo as int) == word_end(s@, j as int),
        decreases s.len() - j,
    {
        j = j + 1;
    }
    Some(crate::text::slice_string(s, lo, j))
}

fn version_prefix_exec(b: ModelCheckerBackend) -> (r: &'static str)
    ensures
        r@ == version_prefix(b),
{
    match b {
        ModelCheckerBackend::Tlc => "TLC2 Version ",
        ModelCheckerBackend::Apalache => "# APALACHE version: ",
    }
}

/// The backend version the checker's output reports.
pub fn detect_backend_version(b: ModelCheckerBackend, output: &str) -> (r: Option<String>)
    ensures
        match r {
            Some(v) => detected_backend_version(b, output@) == Some(v@),
            None => detected_backend_version(b, output@) is None,
        },
{
    let prefix = version_prefix_exec(b);
    let pc = crate::text::chars_of(prefix);
    let ls = crate::document::lines(output);
    let ghost all = ls@.map_values(|l: String| l@);
    let mut i: usize = 0;
    proof {
        assert(all.skip(0) =~= all);
    }
    while i < ls.len()
        invariant
            i <= ls@.len(),
            all == ls@.map_values(|l: String| l@),
            all == crate::document::lines_from(output@, 0),
            pc@ == prefix@,
            prefix@ == version_prefix(b),
            version_in_lines(all, prefix@) == version_in_lines(all.skip(i as int), prefix@),
        decreases ls.len() - i,
    {
        let line = crate::text::chars_of(ls[i].as_str());
        proof {
            assert(all.skip(i as int)[0] == line@);
            assert(all.skip(i as int).drop_first() =~= all.skip(i + 1));
        }
        if crate::text::occurs_at_exec(&line, 0, prefix) {
            let rest = crate::text::slice_string(&line, pc.len(), line.len());
            let rc = crate::text::chars_of(rest.as_str());
            match first_word_exec(&rc) {
                Some(w) => {
                    proof {
                        assert(rest@ == line@.subrange(prefix@.len() as int, line@.len() as int));
                        assert(version_after(line@, prefix@) == Some(w@));
                        assert(all.skip(i as int).len() > 0);
                        assert(version_in_lines(all.skip(i as int), prefix@) == Some(w@));
                    }
                    return Some(w);
                },
                None => {
                    proof {
                        assert(rest@ == line@.subrange(prefix@.len() as int, line@.len() as int));
                        assert(version_after(line@, prefix@) is None);
                    }
                },
            }
        }
        i = i + 1;
    }
    proof {
        assert(all.skip(i as int) =~= Seq::<Seq<char>>::empty());
    }
    None
}

/// The non-blank lines of `ls`, at most `n` of them.
pub open spec fn non_blank(ls: Seq<Seq<char>>, n: nat) -> Seq<Seq<char>>
    decreases ls.len(),
{
    if ls.len() == 0 || n == 0 {
        Seq::empty()
    } else if crate::text::trim(ls[0]).len() == 0 {
        non_blank(ls.drop_first(), n)
    } else {
        seq![ls[0]] + non_blank(ls.drop_first(), (n - 1) as nat)
    }
}

pub open spec fn join_bars(s: Seq<Seq<char>>) -> Seq<char>
    decreases s.len(),
{
    if s.len() == 0 {
        Seq::empty()
    } else if s.len() == 1 {
        s[0]
    } else {
        join_bars(s.drop_last()) + " | "@ + s.last()
    }
}

/// The first twelve non-blank lines of a text, joined by ` | `.
pub open spec fn compact_text(t: Seq<char>) -> Seq<char> {
    join_bars(non_blank(crate::document::lines_from(t, 0), 12))
}

proof fn lemma_non_blank_step(ls: Seq<Seq<char>>, i: int, n: nat)
    requires
        0 <= i < ls.len(),
        n > 0,
    ensures
        crate::text::trim(ls[i]).len() == 0 ==> non_blank(ls.skip(i), n) == non_blank(ls.skip(i + 1), n),
        crate::text::trim(ls[i]).len() != 0 ==> non_blank(ls.skip(i), n) == seq![ls[i]] + non_blank(ls.skip(i + 1), (n - 1) as nat),
{
    assert(ls.skip(i).drop_first() =~= ls.skip(i + 1));
}

fn compact(t: &str) -> (r: String)
    ensures
        r@ == compact_text(t@),
{
    let ls = crate::document::lines(t);
    let ghost all = ls@.map_values(|l: String| l@);
    let mut kept: Vec<String> = Vec::new();
    let mut left: usize = 12;
    let mut i: usize = 0;
    proof {
        assert(all.skip(0) =~= all);
        assert(strs(kept@) =~= Seq::<Seq<char>>::empty());
        assert(Seq::<Seq<char>>::empty() + non_blank(all, 12) =~= non_blank(all, 12));
    }
    while i < ls.len() && left > 0
        invariant
            i <= ls@.len(),
            left <= 12,
            all == ls@.map_values(|l: String| l@),
            all == crate::document::lines_from(t@, 0),
            non_blank(all, 12) == strs(kept@) + non_blank(all.skip(i as int), left as nat),
        decreases ls.len() - i,
    {
        let line = ls[i].as_str();
        let trimmed = crate::text::trim_string(line);
        proof {
            lemma_non_blank_step(all, i as int, left as nat);
            assert(all[i as int] == line@);
        }
        if crate::text::chars_of(trimmed.as_str()).len() > 0 {
            let ghost k0 = strs(kept@);
            kept.push(own(line));
            left = left - 1;
            proof {
                assert(strs(kept@) =~= k0.push(line@));
                assert(k0 + (seq![line@] + non_blank(all.skip(i + 1), left as nat)) =~= strs(kept@) + non_blank(all.skip(i + 1), left as nat));
            }
        }
        i = i + 1;
    }
    proof {
        if left == 0 {
            assert(non_blank(all.skip(i as int), 0) =~= Seq::<Seq<char>>::empty());
        } else {
            assert(all.skip(i as int) =~= Seq::<Seq<char>>::empty());
        }
        assert(strs(kept@) + Seq::<Seq<char>>::empty() =~= strs(kept@));
    }
    let mut out = String::new();
    let mut j: usize = 0;
    while j < kept.len()
        invariant
            j <= kept@.len(),
            out@ == join_bars(strs(kept@).take(j as int)),
        decreases kept.len() - j,
    {
        proof {
            assert(strs(kept@).take(j + 1).drop_last() =~= strs(kept@).take(j as int));
        }
        if j == 0 {
            out = own(kept[0].as_str());
        } else {
            out = cat3(out.as_str(), " | ", kept[j].as_str());
        }
        j = j + 1;
    }
    proof {
        assert(strs(kept@).take(kept@.len() as int) =~= strs(kept@));
    }
    out
}

/// What a model check run concluded.
#[derive(Debug)]
pub struct ModelCheckOutcome {
    pub completion: CompletionSemantics,
    pub status: VerificationStatus,
    pub backend_version: String,
    pub counterexample: Vec<String>,
    pub diagnostics: Vec<String>,
}

pub open spec fn outcome_is(
    o: ModelCheckOutcome,
    completion: CompletionSemantics,
    status: VerificationStatus,
    backend_version: Seq<char>,
    counterexample: Seq<Seq<char>>,
    diagnostics: Seq<Seq<char>>,
) -> bool {
    &&& o.completion == completion
    &&& o.status == status
    &&& o.backend_version@ == backend_version
    &&& strs(o.counterexample@) == counterexample
    &&& strs(o.diagnostics@) == diagnostics
}

fn outcome(completion: CompletionSemantics, status: VerificationStatus, backend_version: String, counterexample: Vec<String>, diagnostic: String) -> (o: ModelCheckOutcome)
    ensures
        outcome_is(o, completion, status, backend_version@, strs(counterexample@), seq![diagnostic@]),
{
    let mut diagnostics: Vec<String> = Vec::new();
    diagnostics.push(diagnostic);
    proof {
        assert(strs(diagnostics@) =~= seq![diagnostic@]);
    }
    ModelCheckOutcome { completion, status, backend_version, counterexample, diagnostics }
}

/// Apalache does not check temporal properties here: such a check is unsupported.
pub fn precheck_outcome(d: &ModelCheckDefinition) -> (r: Option<ModelCheckOutcome>)
    ensures
        d.backend == ModelCheckerBackend::Apalache && d.property_kind == ModelPropertyKind::Temporal ==> (r matches Some(o)
            && outcome_is(o, CompletionSemantics::Unsupported, VerificationStatus::Unverified, d.backend_version@, Seq::empty(),
                seq!["temporal checking is routed to TLC; Apalache temporal support is not used by ADRProof"@])),
        !(d.backend == ModelCheckerBackend::Apalache && d.property_kind == ModelPropertyKind::Temporal) ==> r is None,
{
    if d.backend == ModelCheckerBackend::Apalache && d.property_kind == ModelPropertyKind::Temporal {
        let cex: Vec<String> = Vec::new();
        proof {
            assert(strs(cex@) =~= Seq::<Seq<char>>::empty());
        }
        Some(outcome(
            CompletionSemantics::Unsupported,
            VerificationStatus::Unverified,
            own(d.backend_version.as_str()),
            cex,
            own("temporal checking is routed to TLC; Apalache temporal support is not used by ADRProof"),
        ))
    } else {
        None
    }
}

/// What the `quint --version` run decides: a timeout or a version other than the
/// pinned one ends the check as an error; else the check goes on.
pub open spec fn version_decision(d: ModelCheckDefinition, timed_out: bool, success: bool, stdout: Seq<char>, stderr: Seq<char>)
    -> Option<(CompletionSemantics, Seq<char>)> {
    if timed_out {
        Some((CompletionSemantics::IncompleteTimeout, "Quint version detection timed out after "@ + crate::text::decimal(d.timeout_ms as nat) + " ms"@))
    } else if !success || crate::text::trim(stdout) != d.quint_version@ {
        Some((CompletionSemantics::InfrastructureError, "Quint version mismatch or detection failure: expected "@ + d.quint_version@ + ", observed "@
            + debug_text(crate::text::trim(stdout)) + "; "@ + stderr))
    } else {
        None
    }
}

pub fn version_outcome(d: &ModelCheckDefinition, timed_out: bool, success: bool, stdout: &str, stderr: &str) -> (r: Option<ModelCheckOutcome>)
    ensures
        match version_decision(*d, timed_out, success, stdout@, stderr@) {
            Some((c, m)) => r matches Some(o) && outcome_is(o, c, VerificationStatus::Error, d.backend_version@, Seq::empty(), seq![m]),
            None => r is None,
        },
{
    let cex: Vec<String> = Vec::new();
    proof {
        assert(strs(cex@) =~= Seq::<Seq<char>>::empty());
    }
    if timed_out {
        let m = cat3("Quint version detection timed out after ", crate::text::decimal_string(d.timeout_ms).as_str(), " ms");
        return Some(outcome(CompletionSemantics::IncompleteTimeout, VerificationStatus::Error, own(d.backend_version.as_str()), cex, m));
    }
    let detected = crate::text::trim_string(stdout);
    if !success || !str_eq(detected.as_str(), d.quint_version.as_str()) {
        let head = cat3("Quint version mismatch or detection failure: expected ", d.quint_version.as_str(), ", observed ");
        let quoted = debug_quoted(detected.as_str());
        let m = cat(cat3(head.as_str(), quoted.as_str(), "; ").as_str(), stderr);
        return Some(outcome(CompletionSemantics::InfrastructureError, VerificationStatus::Error, own(d.backend_version.as_str()), cex, m));
    }
    None
}

pub open spec fn no_violation(t: Seq<char>) -> bool {
    mentions(t, "[ok] No violation found"@)
}

pub open spec fn violation(t: Seq<char>) -> bool {
    mentions(t, "[violation]"@) || mentions(t, "Invariant q_inv is violated"@) || mentions(t, "Temporal properties were violated"@)
        || mentions(t, "error: found a counterexample"@)
}

/// A result that matches the expectation passes, one that contradicts it fails.
pub open spec fn checked_status(expected: ExpectedModelCheckerOutcome, nv: bool, v: bool) -> VerificationStatus {
    match expected {
        ExpectedModelCheckerOutcome::NoCounterexample => if nv && !v {
            VerificationStatus::Pass
        } else if !nv && v {
            VerificationStatus::Fail
        } else {
            VerificationStatus::Error
        },
        ExpectedModelCheckerOutcome::CounterexampleRequired => if !nv && v {
            VerificationStatus::Pass
        } else if nv && !v {
            VerificationStatus::Fail
        } else {
            VerificationStatus::Error
        },
    }
}

/// What a result means for the claim.
pub open spec fn result_diagnostic(d: ModelCheckDefinition, result: VerificationStatus) -> Seq<char> {
    if d.expected_outcome == ExpectedModelCheckerOutcome::CounterexampleRequired && result == VerificationStatus::Pass {
        "PASS means the configured model admits the requested behavior witness"@
    } else if d.expected_outcome == ExpectedModelCheckerOutcome::CounterexampleRequired && result == VerificationStatus::Fail {
        "FAIL means the configured model did not produce the required behavior witness"@
    } else if d.expected_outcome == ExpectedModelCheckerOutcome::NoCounterexample && result == VerificationStatus::Fail {
        "FAIL means a counterexample falsified the checked formal-model property"@
    } else if result == VerificationStatus::Pass {
        match exploration_of(d) {
            ExplorationSemantics::ExhaustiveFinite => "PASS applies to exhaustive exploration of this configured finite formal model"@,
            ExplorationSemantics::Bounded { max_steps } => "PASS means no counterexample was found within "@ + crate::text::decimal(max_steps as nat)
                + " steps"@,
        }
    } else {
        "model checking did not establish the configured claim"@
    }
}

pub open spec fn bool_text(b: bool) -> Seq<char> {
    if b { "true"@ } else { "false"@ }
}

/// What the `quint verify` run establishes: a timeout is an incomplete error; the
/// output must name the pinned backend version and carry a completion marker;
/// otherwise the result follows the expectation, with the counterexample's lines.
pub open spec fn run_decision(d: ModelCheckDefinition, timed_out: bool, success: bool, combined: Seq<char>)
    -> (CompletionSemantics, VerificationStatus, Seq<char>, Seq<Seq<char>>, Seq<char>) {
    if timed_out {
        (CompletionSemantics::IncompleteTimeout, VerificationStatus::Error, d.backend_version@, Seq::empty(),
            "model checker timed out after "@ + crate::text::decimal(d.timeout_ms as nat) + " ms"@)
    } else {
        match detected_backend_version(d.backend, combined) {
            None => (CompletionSemantics::InfrastructureError, VerificationStatus::Error, "undetected"@, Seq::empty(),
                "model checker did not identify the configured "@ + cli_name(d.backend) + " backend in its output"@),
            Some(observed) => if observed != d.backend_version@ {
                (CompletionSemantics::InfrastructureError, VerificationStatus::Error, observed, Seq::empty(),
                    "backend version mismatch: expected "@ + d.backend_version@ + ", observed output from another version"@)
            } else if !no_violation(combined) && !violation(combined) {
                (CompletionSemantics::InfrastructureError, VerificationStatus::Error, observed, Seq::empty(),
                    "model checker did not emit an authoritative completion marker (exit success: "@ + bool_text(success) + "): "@
                        + compact_text(combined))
            } else {
                let result = checked_status(d.expected_outcome, no_violation(combined), violation(combined));
                (CompletionSemantics::Complete, result, observed,
                    if violation(combined) { crate::document::lines_from(combined, 0) } else { Seq::empty() },
                    result_diagnostic(d, result))
            },
        }
    }
}

fn result_diagnostic_exec(d: &ModelCheckDefinition, result: VerificationStatus) -> (r: String)
    ensures
        r@ == result_diagnostic(*d, result),
{
    if d.expected_outcome == ExpectedModelCheckerOutcome::CounterexampleRequired && result == VerificationStatus::Pass {
        own("PASS means the configured model admits the requested behavior witness")
    } else if d.expected_outcome == ExpectedModelCheckerOutcome::CounterexampleRequired && result == VerificationStatus::Fail {
        own("FAIL means the configured model did not produce the required behavior witness")
    } else if d.expected_outcome == ExpectedModelCheckerOutcome::NoCounterexample && result == VerificationStatus::Fail {
        own("FAIL means a counterexample falsified the checked formal-model property")
    } else if result == VerificationStatus::Pass {
        match exploration(d) {
            ExplorationSemantics::ExhaustiveFinite => own("PASS applies to exhaustive exploration of this configured finite formal model"),
            ExplorationSemantics::Bounded { max_steps } => cat3(
                "PASS means no counterexample was found within ",
                crate::text::decimal_string(max_steps).as_str(),
                " steps",
            ),
        }
    } else {
        own("model checking did not establish the configured claim")
    }
}

/// The outcome of a `quint verify` run from its combined output.
pub fn check_outcome(d: &ModelCheckDefinition, timed_out: bool, success: bool, combined: &str) -> (r: ModelCheckOutcome)
    ensures
        ({
            let (c, s, v, x, m) = run_decision(*d, timed_out, success, combined@);
            outcome_is(r, c, s, v, x, seq![m])
        }),
{
    let empty: Vec<String> = Vec::new();
    proof {
        assert(strs(empty@) =~= Seq::<Seq<char>>::empty());
    }
    if timed_out {
        let m = cat3("model checker timed out after ", crate::text::decimal_string(d.timeout_ms).as_str(), " ms");
        return outcome(CompletionSemantics::IncompleteTimeout, VerificationStatus::Error, own(d.backend_version.as_str()), empty, m);
    }
    let nv = crate::evidence::mentions_exec(combined, "[ok] No violation found");
    let v = crate::evidence::mentions_exec(combined, "[violation]") || crate::evidence::mentions_exec(combined, "Invariant q_inv is violated")
        || crate::evidence::mentions_exec(combined, "Temporal properties were violated")
        || crate::evidence::mentions_exec(combined, "error: found a counterexample");
    let observed = match detect_backend_version(d.backend, combined) {
        Some(o) => o,
        None => {
            let m = cat3("model checker did not identify the configured ", cli_name_exec(d.backend).as_str(), " backend in its output");
            return outcome(CompletionSemantics::InfrastructureError, VerificationStatus::Error, own("undetected"), empty, m);
        },
    };
    if !str_eq(observed.as_str(), d.backend_version.as_str()) {
        let m = cat3("backend version mismatch: expected ", d.backend_version.as_str(), ", observed output from another version");
        return outcome(CompletionSemantics::InfrastructureError, VerificationStatus::Error, observed, empty, m);
    }
    if !nv && !v {
        let flag = if success { own("true") } else { own("false") };
        let head = cat3("model checker did not emit an authoritative completion marker (exit success: ", flag.as_str(), "): ");
        let m = cat(head.as_str(), compact(combined).as_str());
        return outcome(CompletionSemantics::InfrastructureError, VerificationStatus::Error, observed, empty, m);
    }
    let result = match d.expected_outcome {
        ExpectedModelCheckerOutcome::NoCounterexample => if nv && !v {
            VerificationStatus::Pass
        } else if !nv && v {
            VerificationStatus::Fail
        } else {
            VerificationStatus::Error
        },
        ExpectedModelCheckerOutcome::CounterexampleRequired => if !nv && v {
            VerificationStatus::Pass
        } else if nv && !v {
            VerificationStatus::Fail
        } else {
            VerificationStatus::Error
        },
    };
    let counterexample = if v {
        let ls = crate::document::lines(combined);
        proof {
            assert(strs(ls@) =~= ls@.map_values(|l: String| l@));
        }
        ls
    } else {
        empty
    };
    let m = result_diagnostic_exec(d, result);
    outcome(CompletionSemantics::Complete, result, observed, counterexample, m)
}

/// The record of one model check run.
#[derive(Debug)]
pub struct QuintModelEvidence {
    pub id: EvidenceId,
    pub obligation: ProofObligationId,
    pub model_check_id: String,
    pub model_id: String,
    pub property_id: String,
    pub property_name: String,
    pub property_kind: ModelPropertyKind,
    pub expected_outcome: ExpectedModelCheckerOutcome,
    pub backend: ModelCheckerBackend,
    pub backend_version: String,
    pub quint_version: String,
    pub constants: Vec<(String, String)>,
    pub bounds: Vec<(String, String)>,
    pub model_bindings: Vec<(String, String)>,
    pub fairness: Vec<String>,
    pub exploration: ExplorationSemantics,
    pub completion: CompletionSemantics,
    pub authority: FormalModelAuthority,
    pub configuration_sha256: String,
    pub inputs: Vec<InputFingerprint>,
    pub model_fingerprint: String,
    pub property_fingerprint: String,
    pub result_at_execution: VerificationStatus,
    pub explored_state_stats: ExploredStateStats,
    pub counterexample: Vec<String>,
    pub diagnostics: Vec<String>,
    pub recorded_at_unix_nanos: u128,
}

/// The obligation a model check discharges: `MODEL:` and the check's ID.
pub open spec fn model_obligation(d: ModelCheckDefinition) -> Seq<char> {
    "MODEL:"@ + d.id@
}

/// The evidence of a run: what the definition configured, the run's outcome and
/// statistics, and the fingerprints of its inputs, under the obligation
/// `MODEL:<id>` with the definition's authority carried over unchanged. Its ID is
/// `pending` until the evidence is stored.
pub fn model_evidence(
    d: &ModelCheckDefinition,
    inputs: Vec<InputFingerprint>,
    model_fingerprint: String,
    property_fingerprint: String,
    configuration_sha256: String,
    outcome: ModelCheckOutcome,
    stats: ExploredStateStats,
    recorded_at_unix_nanos: u128,
) -> (r: QuintModelEvidence)
    ensures
        r.id.0@ == "pending"@,
        r.obligation.0@ == model_obligation(*d),
        r.model_check_id@ == d.id@,
        r.model_id@ == d.model_id@,
        r.property_id@ == d.property_id@,
        r.property_name@ == d.property_name@,
        r.property_kind == d.property_kind,
        r.expected_outcome == d.expected_outcome,
        r.backend == d.backend,
        r.quint_version@ == d.quint_version@,
        r.constants@ == d.constants@,
        r.bounds@ == d.bounds@,
        r.model_bindings@ == d.model_bindings@,
        strs(r.fairness@) == strs(d.fairness@),
        r.exploration == exploration_of(*d),
        r.authority.claim@ == d.authority.claim@,
        r.authority.scope@ == d.authority.scope@,
        strs(r.authority.does_not_prove@) == strs(d.authority.does_not_prove@),
        r.completion == outcome.completion,
        r.result_at_execution == outcome.status,
        r.backend_version == outcome.backend_version,
        r.counterexample == outcome.counterexample,
        r.diagnostics == outcome.diagnostics,
        r.explored_state_stats == stats,
        r.inputs == inputs,
        r.model_fingerprint == model_fingerprint,
        r.property_fingerprint == property_fingerprint,
        r.configuration_sha256 == configuration_sha256,
        r.recorded_at_unix_nanos == recorded_at_unix_nanos,
{
    proof {
        reveal_strlit("pending");
    }
    let fairness = clone_strings(&d.fairness);
    let does_not_prove = clone_strings(&d.authority.does_not_prove);
    QuintModelEvidence {
        id: EvidenceId(own("pending")),
        obligation: ProofObligationId(cat("MODEL:", d.id.as_str())),
        model_check_id: d.id.clone(),
        model_id: d.model_id.clone(),
        property_id: d.property_id.clone(),
        property_name: d.property_name.clone(),
        property_kind: d.property_kind,
        expected_outcome: d.expected_outcome,
        backend: d.backend,
        backend_version: outcome.backend_version,
        quint_version: d.quint_version.clone(),
        constants: clone_pairs(&d.constants),
        bounds: clone_pairs(&d.bounds),
        model_bindings: clone_pairs(&d.model_bindings),
        fairness,
        exploration: exploration(d),
        completion: outcome.completion,
        authority: FormalModelAuthority {
            claim: d.authority.claim.clone(),
            scope: d.authority.scope.clone(),
            does_not_prove,
        },
        configuration_sha256,
        inputs,
        model_fingerprint,
        property_fingerprint,
        result_at_execution: outcome.status,
        explored_state_stats: stats,
        counterexample: outcome.counterexample,
        diagnostics: outcome.diagnostics,
        recorded_at_unix_nanos,
    }
}

/// A model check passes only on a complete run whose output names the pinned backend
/// version and whose result matches the expectation: a timeout, a missing completion
/// marker or another backend version never passes.
pub proof fn law_model_pass_requires_complete_matching_run(d: ModelCheckDefinition, timed_out: bool, success: bool, combined: Seq<char>)
    ensures
        run_decision(d, timed_out, success, combined).1 == VerificationStatus::Pass ==> {
            &&& !timed_out
            &&& detected_backend_version(d.backend, combined) == Some(d.backend_version@)
            &&& run_decision(d, timed_out, success, combined).0 == CompletionSemantics::Complete
            &&& match d.expected_outcome {
                ExpectedModelCheckerOutcome::NoCounterexample => no_violation(combined) && !violation(combined),
                ExpectedModelCheckerOutcome::CounterexampleRequired => violation(combined) && !no_violation(combined),
            }
        },
{
}

// ---------------------------------------------------------------------------
// Cross-validation of scenarios against model checks
// ---------------------------------------------------------------------------

/// A scenario whose result must agree with a model check, and the trace events it
/// must show in order.
#[derive(Debug)]
pub struct ScenarioModelMapping {
    pub scenario_id: String,
    pub expected_scenario_result: VerificationStatus,
    pub model_check_id: String,
    pub trace_pattern: Vec<String>,
}

/// A cross-validation of scenarios against model checks.
#[derive(Debug)]
pub struct ModelValidationDefinition {
    pub id: String,
    pub claim: String,
    pub authority: String,
    pub does_not_prove: Vec<String>,
    pub mappings: Vec<ScenarioModelMapping>,
    pub source: String,
}

/// The outcome for one mapping.
#[derive(Debug)]
pub struct ScenarioModelMappingAssessment {
    pub scenario_id: String,
    pub expected_scenario_result: VerificationStatus,
    pub scenario_evidence_id: Option<EvidenceId>,
    pub scenario_result: Option<VerificationStatus>,
    pub scenario_validity: Option<EvidenceValidity>,
    pub model_check_id: String,
    pub model_evidence_id: Option<EvidenceId>,
    pub model_result: Option<VerificationStatus>,
    pub model_validity: Option<EvidenceValidity>,
    pub trace_pattern: Vec<String>,
    pub scenario_trace_matches: bool,
    pub missing_trace_events: Vec<String>,
    pub status: VerificationStatus,
}

/// Recorded evidence of a cross-validation. The dependency fingerprints are sorted
/// by key, each key once.
#[derive(Debug)]
pub struct ModelValidationEvidence {
    pub id: EvidenceId,
    pub obligation: ProofObligationId,
    pub validation_id: String,
    pub provider: String,
    pub provider_version: String,
    pub claim: String,
    pub authority: String,
    pub does_not_prove: Vec<String>,
    pub definition_sha256: String,
    pub dependency_fingerprints: Vec<(String, String)>,
    pub mappings: Vec<ScenarioModelMappingAssessment>,
    pub result_at_execution: VerificationStatus,
    pub diagnostics: Vec<String>,
    pub recorded_at_unix_nanos: u128,
}

/// Cross-validation evidence with its validity.
#[derive(Debug)]
pub struct ModelValidationAssessment {
    pub evidence: ModelValidationEvidence,
    pub current_validity: EvidenceValidity,
}

/// The latest evidence of a scenario or model check as a cross-validation reads
/// it: its identifier, result, validity, and (for a scenario) its trace.
#[derive(Debug)]
pub struct DependencyEvidence {
    pub id: EvidenceId,
    pub result: VerificationStatus,
    pub validity: EvidenceValidity,
    pub trace: Vec<String>,
    pub fingerprint: String,
}

/// The status of a mapping: an error if either side erred, stale if either is
/// stale, unverified if either is missing, a failure if the scenario result, the
/// model result or the trace disagrees, a pass if both are current, else unverified.
pub open spec fn mapping_status_of(
    expected: VerificationStatus,
    scenario: Option<VerificationStatus>,
    scenario_validity: Option<EvidenceValidity>,
    model: Option<VerificationStatus>,
    model_validity: Option<EvidenceValidity>,
    trace_matches: bool,
) -> VerificationStatus {
    if scenario == Some(VerificationStatus::Error) || model == Some(VerificationStatus::Error) {
        VerificationStatus::Error
    } else if scenario_validity == Some(EvidenceValidity::Stale) || model_validity == Some(EvidenceValidity::Stale) {
        VerificationStatus::Stale
    } else if scenario is None || model is None {
        VerificationStatus::Unverified
    } else if scenario != Some(expected) || model != Some(VerificationStatus::Pass) || !trace_matches {
        VerificationStatus::Fail
    } else if scenario_validity == Some(EvidenceValidity::Current) && model_validity == Some(EvidenceValidity::Current) {
        VerificationStatus::Pass
    } else {
        VerificationStatus::Unverified
    }
}

/// The status of a mapping from what its scenario and model check show.
pub fn mapping_status(
    expected: VerificationStatus,
    scenario: Option<VerificationStatus>,
    scenario_validity: Option<EvidenceValidity>,
    model: Option<VerificationStatus>,
    model_validity: Option<EvidenceValidity>,
    trace_matches: bool,
) -> (r: VerificationStatus)
    ensures
        r == mapping_status_of(expected, scenario, scenario_validity, model, model_validity, trace_matches),
{
    if scenario == Some(VerificationStatus::Error) || model == Some(VerificationStatus::Error) {
        VerificationStatus::Error
    } else if scenario_validity == Some(EvidenceValidity::Stale) || model_validity == Some(EvidenceValidity::Stale) {
        VerificationStatus::Stale
    } else if scenario.is_none() || model.is_none() {
        VerificationStatus::Unverified
    } else if scenario != Some(expected) || model != Some(VerificationStatus::Pass) || !trace_matches {
        VerificationStatus::Fail
    } else if scenario_validity == Some(EvidenceValidity::Current) && model_validity == Some(EvidenceValidity::Current) {
        VerificationStatus::Pass
    } else {
        VerificationStatus::Unverified
    }
}

/// How many events of `expected` the observed trace shows in order, taking each
/// observed event that matches the next expected one.
pub open spec fn trace_cursor(observed: Seq<Seq<char>>, expected: Seq<Seq<char>>) -> nat
    decreases observed.len(),
{
    if observed.len() == 0 {
        0
    } else {
        let c = trace_cursor(observed.drop_last(), expected);
        if c < expected.len() && expected[c as int] == observed.last() {
            c + 1
        } else {
            c
        }
    }
}

proof fn lemma_trace_cursor_bound(observed: Seq<Seq<char>>, expected: Seq<Seq<char>>)
    ensures
        trace_cursor(observed, expected) <= expected.len(),
    decreases observed.len(),
{
    if observed.len() > 0 {
        lemma_trace_cursor_bound(observed.drop_last(), expected);
    }
}

/// Whether the observed trace shows the expected events in order, and the expected
/// events it does not reach.
pub fn trace_subsequence(observed: &Vec<String>, expected: &Vec<String>) -> (r: (bool, Vec<String>))
    ensures
        r.0 == (trace_cursor(strs(observed@), strs(expected@)) == expected@.len()),
        strs(r.1@) == strs(expected@).skip(trace_cursor(strs(observed@), strs(expected@)) as int),
{
    let mut cursor: usize = 0;
    let mut i: usize = 0;
    while i < observed.len()
        invariant
            i <= observed@.len(),
            cursor == trace_cursor(strs(observed@).take(i as int), strs(expected@)),
            cursor <= expected@.len(),
        decreases observed.len() - i,
    {
        proof {
            assert(strs(observed@).take(i + 1).drop_last() =~= strs(observed@).take(i as int));
            assert(strs(observed@).take(i + 1).last() == observed@[i as int]@);
        }
        if cursor < expected.len() && str_eq(expected[cursor].as_str(), observed[i].as_str()) {
            cursor = cursor + 1;
        }
        i = i + 1;
    }
    proof {
        assert(strs(observed@).take(observed@.len() as int) =~= strs(observed@));
    }
    let mut rest: Vec<String> = Vec::new();
    let mut k: usize = cursor;
    while k < expected.len()
        invariant
            cursor <= k <= expected@.len(),
            strs(rest@) == strs(expected@).subrange(cursor as int, k as int),
        decreases expected.len() - k,
    {
        let ghost r0 = strs(rest@);
        rest.push(expected[k].clone());
        proof {
            assert(strs(rest@) =~= r0.push(expected@[k as int]@));
            assert(strs(rest@) =~= strs(expected@).subrange(cursor as int, k + 1));
        }
        k = k + 1;
    }
    (cursor == expected.len(), rest)
}

/// The overall status of the mappings: an error, a failure or staleness if any
/// mapping has it (in that order), a pass if there is any and all pass, else
/// unverified.
pub open spec fn validation_status_of(s: Seq<VerificationStatus>) -> VerificationStatus {
    if exists|i: int| 0 <= i < s.len() && s[i] == VerificationStatus::Error {
        VerificationStatus::Error
    } else if exists|i: int| 0 <= i < s.len() && s[i] == VerificationStatus::Fail {
        VerificationStatus::Fail
    } else if exists|i: int| 0 <= i < s.len() && s[i] == VerificationStatus::Stale {
        VerificationStatus::Stale
    } else if s.len() > 0 && forall|i: int| 0 <= i < s.len() ==> s[i] == VerificationStatus::Pass {
        VerificationStatus::Pass
    } else {
        VerificationStatus::Unverified
    }
}

/// The statuses of the mapping assessments.
pub open spec fn mapping_statuses(s: Seq<ScenarioModelMappingAssessment>) -> Seq<VerificationStatus> {
    s.map_values(|m: ScenarioModelMappingAssessment| m.status)
}

/// The overall status of the mapping assessments.
pub fn aggregate_validation_status(mappings: &Vec<ScenarioModelMappingAssessment>) -> (r: VerificationStatus)
    ensures
        r == validation_status_of(mapping_statuses(mappings@)),
{
    let ghost s = mapping_statuses(mappings@);
    let mut error = false;
    let mut fail = false;
    let mut stale = false;
    let mut all_pass = true;
    let mut i: usize = 0;
    while i < mappings.len()
        invariant
            i <= mappings@.len(),
            s == mapping_statuses(mappings@),
            error == exists|q: int| 0 <= q < i && s[q] == VerificationStatus::Error,
            fail == exists|q: int| 0 <= q < i && s[q] == VerificationStatus::Fail,
            stale == exists|q: int| 0 <= q < i && s[q] == VerificationStatus::Stale,
            all_pass == forall|q: int| 0 <= q < i ==> s[q] == VerificationStatus::Pass,
        decreases mappings.len() - i,
    {
        let st = mappings[i].status;
        proof {
            assert(s[i as int] == st);
        }
        if st == VerificationStatus::Error {
            error = true;
        }
        if st == VerificationStatus::Fail {
            fail = true;
        }
        if st == VerificationStatus::Stale {
            stale = true;
        }
        if st != VerificationStatus::Pass {
            all_pass = false;
        }
        proof {
            assert(error == exists|q: int| 0 <= q < i + 1 && s[q] == VerificationStatus::Error) by {
                if st == VerificationStatus::Error {
                    assert(s[i as int] == VerificationStatus::Error);
                }
            };
            assert(fail == exists|q: int| 0 <= q < i + 1 && s[q] == VerificationStatus::Fail) by {
                if st == VerificationStatus::Fail {
                    assert(s[i as int] == VerificationStatus::Fail);
                }
            };
            assert(stale == exists|q: int| 0 <= q < i + 1 && s[q] == VerificationStatus::Stale) by {
                if st == VerificationStatus::Stale {
                    assert(s[i as int] == VerificationStatus::Stale);
                }
            };
        }
        i = i + 1;
    }
    if error {
        VerificationStatus::Error
    } else if fail {
        VerificationStatus::Fail
    } else if stale {
        VerificationStatus::Stale
    } else if mappings.len() > 0 && all_pass {
        VerificationStatus::Pass
    } else {
        VerificationStatus::Unverified
    }
}

/// The result of the evidence, if any.
pub open spec fn result_of(e: Option<DependencyEvidence>) -> Option<VerificationStatus> {
    match e {
        Some(x) => Some(x.result),
        None => None,
    }
}

/// The validity of the evidence, if any.
pub open spec fn validity_of_dependency(e: Option<DependencyEvidence>) -> Option<EvidenceValidity> {
    match e {
        Some(x) => Some(x.validity),
        None => None,
    }
}

/// The trace of the scenario evidence, empty without one.
pub open spec fn trace_of(e: Option<DependencyEvidence>) -> Seq<Seq<char>> {
    match e {
        Some(x) => strs(x.trace@),
        None => Seq::empty(),
    }
}

/// The assessment of a mapping from the latest evidence of its scenario and of its
/// model check.
pub open spec fn mapping_assessed(
    m: ScenarioModelMapping,
    scenario: Option<DependencyEvidence>,
    model: Option<DependencyEvidence>,
    a: ScenarioModelMappingAssessment,
) -> bool {
    let cursor = trace_cursor(trace_of(scenario), strs(m.trace_pattern@));
    &&& a.scenario_id@ == m.scenario_id@
    &&& a.expected_scenario_result == m.expected_scenario_result
    &&& a.scenario_evidence_id == (match scenario {
        Some(x) => Some(x.id),
        None => None::<EvidenceId>,
    })
    &&& a.scenario_result == result_of(scenario)
    &&& a.scenario_validity == validity_of_dependency(scenario)
    &&& a.model_check_id@ == m.model_check_id@
    &&& a.model_evidence_id == (match model {
        Some(x) => Some(x.id),
        None => None::<EvidenceId>,
    })
    &&& a.model_result == result_of(model)
    &&& a.model_validity == validity_of_dependency(model)
    &&& strs(a.trace_pattern@) == strs(m.trace_pattern@)
    &&& a.scenario_trace_matches == (cursor == m.trace_pattern@.len())
    &&& strs(a.missing_trace_events@) == strs(m.trace_pattern@).skip(cursor as int)
    &&& a.status == mapping_status_of(
        m.expected_scenario_result,
        result_of(scenario),
        validity_of_dependency(scenario),
        result_of(model),
        validity_of_dependency(model),
        cursor == m.trace_pattern@.len(),
    )
}

/// Assesses a mapping from the latest evidence of its scenario and of its model
/// check, if any.
pub fn evaluate_mapping(
    m: &ScenarioModelMapping,
    scenario: Option<DependencyEvidence>,
    model: Option<DependencyEvidence>,
) -> (a: ScenarioModelMappingAssessment)
    ensures
        mapping_assessed(*m, scenario, model, a),
{
    let empty: Vec<String> = Vec::new();
    let (matches, missing) = match &scenario {
        Some(x) => trace_subsequence(&x.trace, &m.trace_pattern),
        None => {
            proof {
                assert(strs(empty@) =~= Seq::<Seq<char>>::empty());
            }
            trace_subsequence(&empty, &m.trace_pattern)
        },
    };
    let scenario_result = match &scenario {
        Some(x) => Some(x.result),
        None => None,
    };
    let scenario_validity = match &scenario {
        Some(x) => Some(x.validity),
        None => None,
    };
    let model_result = match &model {
        Some(x) => Some(x.result),
        None => None,
    };
    let model_validity = match &model {
        Some(x) => Some(x.validity),
        None => None,
    };
    let status = mapping_status(m.expected_scenario_result, scenario_result, scenario_validity, model_result, model_validity, matches);
    ScenarioModelMappingAssessment {
        scenario_id: m.scenario_id.clone(),
        expected_scenario_result: m.expected_scenario_result,
        scenario_evidence_id: match scenario {
            Some(x) => Some(x.id),
            None => None,
        },
        scenario_result,
        scenario_validity,
        model_check_id: m.model_check_id.clone(),
        model_evidence_id: match model {
            Some(x) => Some(x.id),
            None => None,
        },
        model_result,
        model_validity,
        trace_pattern: crate::project::clone_strings(&m.trace_pattern),
        scenario_trace_matches: matches,
        missing_trace_events: missing,
        status,
    }
}

/// The `Debug` text of a status.
pub open spec fn status_debug(s: VerificationStatus) -> Seq<char> {
    match s {
        VerificationStatus::Pass => "Pass"@,
        VerificationStatus::Fail => "Fail"@,
        VerificationStatus::Unknown => "Unknown"@,
        VerificationStatus::Unverified => "Unverified"@,
        VerificationStatus::Stale => "Stale"@,
        VerificationStatus::NotApplicable => "NotApplicable"@,
        VerificationStatus::Error => "Error"@,
    }
}

/// The `Debug` text of an optional status.
pub open spec fn option_status_debug(s: Option<VerificationStatus>) -> Seq<char> {
    match s {
        Some(x) => "Some("@ + status_debug(x) + ")"@,
        None => "None"@,
    }
}

/// The `Debug` text of an optional validity.
pub open spec fn option_validity_debug(v: Option<EvidenceValidity>) -> Seq<char> {
    match v {
        Some(EvidenceValidity::Current) => "Some(Current)"@,
        Some(EvidenceValidity::Stale) => "Some(Stale)"@,
        None => "None"@,
    }
}

/// The `Debug` text of a list of strings: each quoted, separated by `, `, in
/// brackets.
pub open spec fn list_debug(s: Seq<Seq<char>>) -> Seq<char> {
    "["@ + crate::check::comma_list(s.map_values(|x: Seq<char>| debug_text(x))) + "]"@
}

/// The diagnostic of a mapping that does not pass.
pub open spec fn mapping_diagnostic(a: ScenarioModelMappingAssessment) -> Seq<char> {
    a.scenario_id@ + " -> "@ + a.model_check_id@ + " is "@ + status_debug(a.status) + " (scenario "@ + option_status_debug(
        a.scenario_result,
    ) + "/"@ + option_validity_debug(a.scenario_validity) + ", model "@ + option_status_debug(a.model_result) + "/"@
        + option_validity_debug(a.model_validity) + ", trace_match="@ + bool_text(a.scenario_trace_matches)
        + ", missing_trace_events="@ + list_debug(strs(a.missing_trace_events@)) + ")"@
}

/// The diagnostics of the mappings that do not pass, in order.
pub open spec fn validation_diagnostics(s: Seq<ScenarioModelMappingAssessment>) -> Seq<Seq<char>>
    decreases s.len(),
{
    if s.len() == 0 {
        Seq::empty()
    } else {
        let d = validation_diagnostics(s.drop_last());
        if s.last().status == VerificationStatus::Pass {
            d
        } else {
            d.push(mapping_diagnostic(s.last()))
        }
    }
}

fn status_debug_exec(s: VerificationStatus) -> (r: &'static str)
    ensures
        r@ == status_debug(s),
{
    match s {
        VerificationStatus::Pass => "Pass",
        VerificationStatus::Fail => "Fail",
        VerificationStatus::Unknown => "Unknown",
        VerificationStatus::Unverified => "Unverified",
        VerificationStatus::Stale => "Stale",
        VerificationStatus::NotApplicable => "NotApplicable",
        VerificationStatus::Error => "Error",
    }
}

fn option_status_debug_exec(s: Option<VerificationStatus>) -> (r: String)
    ensures
        r@ == option_status_debug(s),
{
    match s {
        Some(x) => cat3("Some(", status_debug_exec(x), ")"),
        None => own("None"),
    }
}

fn option_validity_debug_exec(v: Option<EvidenceValidity>) -> (r: &'static str)
    ensures
        r@ == option_validity_debug(v),
{
    match v {
        Some(EvidenceValidity::Current) => "Some(Current)",
        Some(EvidenceValidity::Stale) => "Some(Stale)",
        None => "None",
    }
}

fn list_debug_exec(v: &Vec<String>) -> (r: String)
    ensures
        r@ == list_debug(strs(v@)),
{
    let mut quoted: Vec<String> = Vec::new();
    let mut i: usize = 0;
    while i < v.len()
        invariant
            i <= v@.len(),
            strs(quoted@) == strs(v@).take(i as int).map_values(|x: Seq<char>| debug_text(x)),
        decreases v.len() - i,
    {
        let ghost q0 = strs(quoted@);
        quoted.push(debug_quoted(v[i].as_str()));
        proof {
            assert(strs(quoted@) =~= q0.push(debug_text(v@[i as int]@)));
            assert(strs(v@).take(i + 1) =~= strs(v@).take(i as int).push(v@[i as int]@));
            assert(strs(quoted@) =~= strs(v@).take(i + 1).map_values(|x: Seq<char>| debug_text(x)));
        }
        i = i + 1;
    }
    proof {
        assert(strs(v@).take(v@.len() as int) =~= strs(v@));
    }
    let inner = crate::check::comma_list_exec(&quoted);
    cat3("[", inner.as_str(), "]")
}

fn mapping_diagnostic_exec(a: &ScenarioModelMappingAssessment) -> (r: String)
    ensures
        r@ == mapping_diagnostic(*a),
{
    let mut t = cat3(a.scenario_id.as_str(), " -> ", a.model_check_id.as_str());
    t.append(" is ");
    t.append(status_debug_exec(a.status));
    t.append(" (scenario ");
    let s1 = option_status_debug_exec(a.scenario_result);
    t.append(s1.as_str());
    t.append("/");
    t.append(option_validity_debug_exec(a.scenario_validity));
    t.append(", model ");
    let s2 = option_status_debug_exec(a.model_result);
    t.append(s2.as_str());
    t.append("/");
    t.append(option_validity_debug_exec(a.model_validity));
    t.append(", trace_match=");
    t.append(if a.scenario_trace_matches {
        "true"
    } else {
        "false"
    });
    t.append(", missing_trace_events=");
    let l = list_debug_exec(&a.missing_trace_events);
    t.append(l.as_str());
    t.append(")");
    t
}

impl crate::keyed::Keyed for (String, String) {
    open spec fn key(&self) -> Seq<char> {
        self.0@
    }

    fn key_string(&self) -> (r: String) {
        self.0.clone()
    }
}

/// The dependency fingerprints of the mappings: under `scenario:` and `model:` with
/// their identifiers, the fingerprint of the latest evidence or `missing`; a later
/// mapping's entry for the same key wins.
pub open spec fn dependency_map(
    ms: Seq<ScenarioModelMapping>,
    scenarios: Seq<Option<DependencyEvidence>>,
    models: Seq<Option<DependencyEvidence>>,
) -> Map<Seq<char>, Seq<char>>
    decreases ms.len(),
{
    if ms.len() == 0 {
        Map::empty()
    } else {
        let n = ms.len() - 1;
        dependency_map(ms.drop_last(), scenarios, models).insert(
            "scenario:"@ + ms[n].scenario_id@,
            match scenarios[n] {
                Some(x) => x.fingerprint@,
                None => "missing"@,
            },
        ).insert(
            "model:"@ + ms[n].model_check_id@,
            match models[n] {
                Some(x) => x.fingerprint@,
                None => "missing"@,
            },
        )
    }
}

/// The entries as a map from key to value.
pub open spec fn entries_map(s: Seq<(String, String)>) -> Map<Seq<char>, Seq<char>> {
    Map::new(|k: Seq<char>| crate::keyed::has_key(s, k), |k: Seq<char>| s[choose|i: int| 0 <= i < s.len() && s[i].0@ == k].1@)
}

proof fn lemma_entries_upserted(before: Seq<(String, String)>, after: Seq<(String, String)>, item: (String, String))
    requires
        crate::keyed::strictly_sorted(before),
        crate::keyed::strictly_sorted(after),
        after.contains(item),
        forall|x: (String, String)| #[trigger] after.contains(x) ==> x == item || before.contains(x),
        forall|x: (String, String)| #[trigger] before.contains(x) && x.0@ != item.0@ ==> after.contains(x),
        forall|k: Seq<char>| #[trigger] crate::keyed::has_key(after, k) <==> (crate::keyed::has_key(before, k) || k == item.0@),
    ensures
        entries_map(after) == entries_map(before).insert(item.0@, item.1@),
{
    assert forall|k: Seq<char>| #[trigger] crate::keyed::has_key(after, k) implies entries_map(after)[k] == entries_map(before).insert(item.0@, item.1@)[k] by {
        let i = choose|i: int| 0 <= i < after.len() && after[i].0@ == k;
        assert(after.contains(after[i]));
        if k == item.0@ {
            crate::keyed::lemma_sorted_unique_key(after, after[i], item);
        } else {
            assert(before.contains(after[i]));
            let p = choose|p: int| 0 <= p < before.len() && before[p].0@ == k;
            assert(before.contains(before[p]));
            crate::keyed::lemma_sorted_unique_key(before, before[p], after[i]);
        }
    };
    assert(entries_map(after) =~= entries_map(before).insert(item.0@, item.1@));
}

/// The dependency fingerprints of the mappings (see `dependency_map`), sorted by
/// key, each key once.
pub fn dependency_fingerprints(
    mappings: &Vec<ScenarioModelMapping>,
    scenarios: &Vec<Option<DependencyEvidence>>,
    models: &Vec<Option<DependencyEvidence>>,
) -> (r: Vec<(String, String)>)
    requires
        scenarios@.len() == mappings@.len(),
        models@.len() == mappings@.len(),
    ensures
        crate::keyed::strictly_sorted(r@),
        entries_map(r@) == dependency_map(mappings@, scenarios@, models@),
{
    let mut fingerprints: Vec<(String, String)> = Vec::new();
    let mut i: usize = 0;
    proof {
        assert(entries_map(fingerprints@) =~= dependency_map(mappings@.take(0), scenarios@, models@));
    }
    while i < mappings.len()
        invariant
            i <= mappings@.len(),
            scenarios@.len() == mappings@.len(),
            models@.len() == mappings@.len(),
            crate::keyed::strictly_sorted(fingerprints@),
            entries_map(fingerprints@) == dependency_map(mappings@.take(i as int), scenarios@, models@),
        decreases mappings.len() - i,
    {
        let m = &mappings[i];
        let skey = cat("scenario:", m.scenario_id.as_str());
        let sval = match &scenarios[i] {
            Some(x) => x.fingerprint.clone(),
            None => own("missing"),
        };
        let mkey = cat("model:", m.model_check_id.as_str());
        let mval = match &models[i] {
            Some(x) => x.fingerprint.clone(),
            None => own("missing"),
        };
        let ghost f0 = fingerprints@;
        let first = (skey, sval);
        let ghost g1 = first;
        crate::keyed::upsert(&mut fingerprints, first);
        let ghost f1 = fingerprints@;
        let second = (mkey, mval);
        let ghost g2 = second;
        crate::keyed::upsert(&mut fingerprints, second);
        proof {
            lemma_entries_upserted(f0, f1, g1);
            lemma_entries_upserted(f1, fingerprints@, g2);
            assert(mappings@.take(i + 1).drop_last() =~= mappings@.take(i as int));
            assert(mappings@.take(i + 1)[i as int] == mappings@[i as int]);
        }
        i = i + 1;
    }
    proof {
        assert(mappings@.take(mappings@.len() as int) =~= mappings@);
    }
    fingerprints
}

/// The entries as (key, value) views, in order.
pub open spec fn pair_views(s: Seq<(String, String)>) -> Seq<(Seq<char>, Seq<char>)> {
    s.map_values(|p: (String, String)| (p.0@, p.1@))
}

/// Recorded cross-validation evidence still applies when it comes from this
/// provider version, for the current definition file, with the current dependency
/// fingerprints.
pub open spec fn validation_validity(e: ModelValidationEvidence, definition_bytes: Seq<u8>, current: Seq<(String, String)>) -> EvidenceValidity {
    if e.provider_version@ == "1"@ && e.definition_sha256@ == crate::evidence::sha256_hex(definition_bytes)
        && pair_views(e.dependency_fingerprints@) == pair_views(current) {
        EvidenceValidity::Current
    } else {
        EvidenceValidity::Stale
    }
}

fn same_pairs(a: &Vec<(String, String)>, b: &Vec<(String, String)>) -> (r: bool)
    ensures
        r == (pair_views(a@) == pair_views(b@)),
{
    if a.len() != b.len() {
        proof {
            assert(pair_views(a@).len() != pair_views(b@).len());
        }
        return false;
    }
    let mut i: usize = 0;
    while i < a.len()
        invariant
            i <= a@.len(),
            a@.len() == b@.len(),
            forall|q: int| 0 <= q < i ==> (#[trigger] pair_views(a@)[q]) == pair_views(b@)[q],
        decreases a.len() - i,
    {
        if !str_eq(a[i].0.as_str(), b[i].0.as_str()) || !str_eq(a[i].1.as_str(), b[i].1.as_str()) {
            proof {
                assert(pair_views(a@)[i as int] != pair_views(b@)[i as int]);
            }
            return false;
        }
        i = i + 1;
    }
    proof {
        assert(pair_views(a@) =~= pair_views(b@));
    }
    true
}

/// Whether recorded cross-validation evidence still applies, given the definition
/// file as read and the current dependency fingerprints.
pub fn assess_validation(evidence: &ModelValidationEvidence, definition_bytes: &[u8], current: &Vec<(String, String)>) -> (r: EvidenceValidity)
    ensures
        r == validation_validity(*evidence, definition_bytes@, current@),
{
    let h = crate::evidence::sha256_of(definition_bytes);
    if str_eq(evidence.provider_version.as_str(), "1") && str_eq(evidence.definition_sha256.as_str(), h.as_str())
        && same_pairs(&evidence.dependency_fingerprints, current) {
        EvidenceValidity::Current
    } else {
        EvidenceValidity::Stale
    }
}

impl crate::evidence::Recorded for ModelValidationEvidence {
    open spec fn owner_view(&self) -> Seq<char> {
        self.validation_id@
    }

    open spec fn stamp_view(&self) -> (u128, Seq<char>) {
        (self.recorded_at_unix_nanos, self.id.0@)
    }

    fn owner(&self) -> (r: &str) {
        self.validation_id.as_str()
    }

    fn stamp(&self) -> (r: (u128, String)) {
        (self.recorded_at_unix_nanos, self.id.0.clone())
    }
}

/// The latest cross-validation evidence recorded for the definition, with its
/// validity; `definition_bytes` and `current` are as for `assess_validation`.
pub fn latest_validation_assessment(
    definition: &ModelValidationDefinition,
    all: Vec<ModelValidationEvidence>,
    definition_bytes: &[u8],
    current: &Vec<(String, String)>,
) -> (r: Option<ModelValidationAssessment>)
    ensures
        r is None <==> !exists|i: int| 0 <= i < all@.len() && (#[trigger] all@[i]).validation_id@ == definition.id@,
        r matches Some(a) ==> exists|i: int| #[trigger] crate::evidence::latest_for(all@, definition.id@, i) && a.evidence == all@[i]
            && a.current_validity == validation_validity(a.evidence, definition_bytes@, current@),
{
    match crate::evidence::latest_recorded(all, definition.id.as_str()) {
        None => None,
        Some(evidence) => {
            let current_validity = assess_validation(&evidence, definition_bytes, current);
            Some(ModelValidationAssessment { evidence, current_validity })
        },
    }
}

/// Runs a cross-validation: `scenarios[i]` and `models[i]` are the latest evidence
/// of the scenario and the model check of mapping `i` (if any),
/// `definition_bytes` the definition file as read, and `recorded_at_unix_nanos`
/// the time of recording.
pub fn run_validation(
    definition: &ModelValidationDefinition,
    scenarios: Vec<Option<DependencyEvidence>>,
    models: Vec<Option<DependencyEvidence>>,
    definition_bytes: &[u8],
    recorded_at_unix_nanos: u128,
) -> (e: ModelValidationEvidence)
    requires
        scenarios@.len() == definition.mappings@.len(),
        models@.len() == definition.mappings@.len(),
    ensures
        e.id.0@ == "pending"@,
        e.obligation.0@ == "MODEL-VALIDATION:"@ + definition.id@,
        e.validation_id@ == definition.id@,
        e.provider@ == "scenario_model_cross_validation"@,
        e.provider_version@ == "1"@,
        e.claim@ == definition.claim@,
        e.authority@ == definition.authority@,
        strs(e.does_not_prove@) == strs(definition.does_not_prove@),
        e.definition_sha256@ == crate::evidence::sha256_hex(definition_bytes@),
        crate::keyed::strictly_sorted(e.dependency_fingerprints@),
        entries_map(e.dependency_fingerprints@) == dependency_map(definition.mappings@, scenarios@, models@),
        e.mappings@.len() == definition.mappings@.len(),
        forall|i: int| 0 <= i < definition.mappings@.len() ==> mapping_assessed(definition.mappings@[i], scenarios@[i], models@[i],
            #[trigger] e.mappings@[i]),
        e.result_at_execution == validation_status_of(mapping_statuses(e.mappings@)),
        strs(e.diagnostics@) == validation_diagnostics(e.mappings@),
        e.recorded_at_unix_nanos == recorded_at_unix_nanos,
{
    let ghost sv = scenarios@;
    let ghost mv = models@;
    proof {
        assert(sv.skip(0) =~= sv);
        assert(mv.skip(0) =~= mv);
    }
    let fingerprints = dependency_fingerprints(&definition.mappings, &scenarios, &models);
    let mut mappings: Vec<ScenarioModelMappingAssessment> = Vec::new();
    let mut scenarios = scenarios;
    let mut models = models;
    let mut i: usize = 0;
    while i < definition.mappings.len()
        invariant
            i <= definition.mappings@.len(),
            sv.len() == definition.mappings@.len(),
            mv.len() == definition.mappings@.len(),
            scenarios@ == sv.skip(i as int),
            models@ == mv.skip(i as int),
            mappings@.len() == i,
            forall|q: int| 0 <= q < i ==> mapping_assessed(definition.mappings@[q], sv[q], mv[q], #[trigger] mappings@[q]),
        decreases definition.mappings.len() - i,
    {
        proof {
            assert(scenarios@.len() > 0 && models@.len() > 0);
        }
        let scenario = scenarios.remove(0);
        let model = models.remove(0);
        proof {
            assert(scenario == sv[i as int]);
            assert(model == mv[i as int]);
            assert(scenarios@ =~= sv.skip(i + 1));
            assert(models@ =~= mv.skip(i + 1));
        }
        mappings.push(evaluate_mapping(&definition.mappings[i], scenario, model));
        i = i + 1;
    }
    let result_at_execution = aggregate_validation_status(&mappings);
    let mut diagnostics: Vec<String> = Vec::new();
    let mut k: usize = 0;
    while k < mappings.len()
        invariant
            k <= mappings@.len(),
            strs(diagnostics@) == validation_diagnostics(mappings@.take(k as int)),
        decreases mappings.len() - k,
    {
        proof {
            assert(mappings@.take(k + 1).drop_last() =~= mappings@.take(k as int));
            assert(mappings@.take(k + 1).last() == mappings@[k as int]);
        }
        if mappings[k].status != VerificationStatus::Pass {
            let ghost d0 = strs(diagnostics@);
            diagnostics.push(mapping_diagnostic_exec(&mappings[k]));
            proof {
                assert(strs(diagnostics@) =~= d0.push(mapping_diagnostic(mappings@[k as int])));
            }
        }
        k = k + 1;
    }
    proof {
        assert(mappings@.take(mappings@.len() as int) =~= mappings@);
    }
    ModelValidationEvidence {
        id: EvidenceId(own("pending")),
        obligation: ProofObligationId(cat("MODEL-VALIDATION:", definition.id.as_str())),
        validation_id: definition.id.clone(),
        provider: own("scenario_model_cross_validation"),
        provider_version: own("1"),
        claim: definition.claim.clone(),
        authority: definition.authority.clone(),
        does_not_prove: crate::project::clone_strings(&definition.does_not_prove),
        definition_sha256: crate::evidence::sha256_of(definition_bytes),
        dependency_fingerprints: fingerprints,
        mappings,
        result_at_execution,
        diagnostics,
        recorded_at_unix_nanos,
    }
}

// ---------------------------------------------------------------------------
// Inputs, validity and the graph of model checks
// ---------------------------------------------------------------------------

/// The candidate inputs of a model check: its definition file and its model.
pub open spec fn model_candidates(roots: VerificationRoots, d: ModelCheckDefinition) -> Seq<(Seq<char>, Seq<char>)> {
    seq![
        (identity_of("spec"@, roots.specification_root@, d.source@), d.source@),
        (identity_of("spec"@, roots.specification_root@, joined(roots.specification_root@, d.model@)), joined(roots.specification_root@, d.model@)),
    ]
}

/// The fingerprints of a model check's inputs, in identity order, from the bytes
/// given for their paths; fails on an input whose bytes are missing.
pub fn current_inputs(roots: &VerificationRoots, definition: &ModelCheckDefinition, contents: &Vec<(String, Vec<u8>)>) -> (r: Result<Vec<InputFingerprint>, Error>)
    ensures
        exists|u: Seq<SemanticInput>| #[trigger] crate::assembly::inputs_of(model_candidates(*roots, *definition), u) && {
            &&& r is Ok <==> forall|j: int| 0 <= j < u.len() ==> crate::assembly::content_of(contents@, (#[trigger] u[j]).path@) is Some
            &&& r matches Ok(fps) ==> crate::assembly::fingerprinted(u, contents@, fps@)
        },
{
    let mut semantic: Vec<SemanticInput> = Vec::new();
    semantic.push(SemanticInput { identity: roots.spec_identity(definition.source.as_str()), path: definition.source.clone() });
    let model = crate::roots::join_exec(roots.specification_root.as_str(), definition.model.as_str());
    semantic.push(SemanticInput { identity: roots.spec_identity(model.as_str()), path: model });
    proof {
        assert(crate::assembly::input_pairs(semantic@) =~= model_candidates(*roots, *definition));
    }
    crate::assembly::fingerprint_semantic_files(&semantic, contents)
}

/// The fingerprint recorded for the model: that of the input with the model's
/// identity, or empty.
pub open spec fn model_fingerprint_of(roots: VerificationRoots, d: ModelCheckDefinition, inputs: Seq<InputFingerprint>) -> Seq<char> {
    let id = identity_of("spec"@, roots.specification_root@, joined(roots.specification_root@, d.model@));
    if exists|i: int| 0 <= i < inputs.len() && (#[trigger] inputs[i]).source@ == id {
        inputs[choose|i: int| 0 <= i < inputs.len() && (#[trigger] inputs[i]).source@ == id && forall|j: int|
            0 <= j < i ==> (#[trigger] inputs[j]).source@ != id].sha256@
    } else {
        Seq::empty()
    }
}

/// The fingerprint of the model among the inputs: the hash of the first input
/// with the model's identity, or empty.
pub fn model_fingerprint(roots: &VerificationRoots, definition: &ModelCheckDefinition, inputs: &Vec<InputFingerprint>) -> (r: String)
    ensures
        r@ == model_fingerprint_of(*roots, *definition, inputs@),
{
    let model = crate::roots::join_exec(roots.specification_root.as_str(), definition.model.as_str());
    let id = roots.spec_identity(model.as_str());
    let ghost idv = identity_of("spec"@, roots.specification_root@, joined(roots.specification_root@, definition.model@));
    let mut i: usize = 0;
    while i < inputs.len()
        invariant
            i <= inputs@.len(),
            id@ == idv,
            idv == identity_of("spec"@, roots.specification_root@, joined(roots.specification_root@, definition.model@)),
            forall|j: int| 0 <= j < i ==> (#[trigger] inputs@[j]).source@ != idv,
        decreases inputs.len() - i,
    {
        if str_eq(inputs[i].source.as_str(), id.as_str()) {
            let r = inputs[i].sha256.clone();
            proof {
                assert((#[trigger] inputs@[i as int]).source@ == idv && forall|j: int| 0 <= j < i ==> (#[trigger] inputs@[j]).source@ != idv);
                let c = choose|k: int| 0 <= k < inputs@.len() && (#[trigger] inputs@[k]).source@ == idv && forall|j: int|
                    0 <= j < k ==> (#[trigger] inputs@[j]).source@ != idv;
                if c > i {
                    assert(inputs@[i as int].source@ == idv);
                }
                assert(c == i);
            }
            return r;
        }
        i = i + 1;
    }
    String::new()
}

/// Recorded model evidence still applies when it was computed from exactly the
/// current inputs, by this provider version, for the current configuration and
/// the pinned Quint and backend versions.
pub open spec fn model_validity(
    recorded_inputs: Seq<InputFingerprint>,
    provider_version: Seq<char>,
    configuration_sha256: Seq<char>,
    quint_version: Seq<char>,
    backend_version: Seq<char>,
    d: ModelCheckDefinition,
    current: Seq<InputFingerprint>,
    configuration: Seq<u8>,
) -> EvidenceValidity {
    if fingerprint_views(recorded_inputs) == fingerprint_views(current) && provider_version == "1"@
        && configuration_sha256 == crate::evidence::sha256_hex(configuration) && quint_version == d.quint_version@
        && backend_version == d.backend_version@ {
        EvidenceValidity::Current
    } else {
        EvidenceValidity::Stale
    }
}

/// Whether recorded model evidence (its inputs, provider version, configuration
/// hash, Quint version and backend version) still applies to the definition,
/// given the current fingerprints of its inputs and its serialized configuration.
pub fn assess_model(
    recorded_inputs: &Vec<InputFingerprint>,
    provider_version: &str,
    configuration_sha256: &str,
    quint_version: &str,
    backend_version: &str,
    definition: &ModelCheckDefinition,
    current: &Vec<InputFingerprint>,
    configuration: &[u8],
) -> (r: EvidenceValidity)
    ensures
        r == model_validity(recorded_inputs@, provider_version@, configuration_sha256@, quint_version@, backend_version@, *definition, current@, configuration@),
{
    let h = crate::evidence::sha256_of(configuration);
    if crate::evidence::same_fingerprint_list(recorded_inputs, current) && str_eq(provider_version, "1") && str_eq(configuration_sha256, h.as_str())
        && str_eq(quint_version, definition.quint_version.as_str()) && str_eq(backend_version, definition.backend_version.as_str()) {
        EvidenceValidity::Current
    } else {
        EvidenceValidity::Stale
    }
}

/// The evidence edges of one obligation from a list of (owner, evidence) pairs.
pub open spec fn owned_evidence_keys(owner: Seq<char>, obligation: Seq<char>, history: Seq<(String, EvidenceId)>) -> Seq<Seq<char>>
    decreases history.len(),
{
    if history.len() == 0 {
        Seq::empty()
    } else {
        let k = owned_evidence_keys(owner, obligation, history.drop_last());
        if history.last().0@ == owner {
            k.push(edge_json_parts("ProofObligation"@, obligation, LinkKind::EvidenceFor, "Evidence"@, history.last().1.0@))
        } else {
            k
        }
    }
}

/// The edges of one model check, by their JSON text.
pub open spec fn model_edge_keys(roots: VerificationRoots, d: ModelCheckDefinition, history: Seq<(String, EvidenceId)>) -> Seq<Seq<char>> {
    seq![
        edge_json_parts("Artifact"@, identity_of("spec"@, roots.specification_root@, d.source@), LinkKind::Defines, "ProofObligation"@, "MODEL:"@ + d.id@),
        edge_json_parts("Artifact"@, identity_of("spec"@, roots.specification_root@, joined(roots.specification_root@, d.model@)), LinkKind::RelevantTo,
            "ProofObligation"@, "MODEL:"@ + d.id@),
    ] + owned_evidence_keys(d.id@, "MODEL:"@ + d.id@, history)
}

/// The edges of one cross-validation, by their JSON text.
pub open spec fn validation_edge_keys(roots: VerificationRoots, v: ModelValidationDefinition, history: Seq<(String, EvidenceId)>) -> Seq<Seq<char>> {
    seq![
        edge_json_parts("Artifact"@, identity_of("spec"@, roots.specification_root@, v.source@), LinkKind::Defines, "ProofObligation"@,
            "MODEL-VALIDATION:"@ + v.id@),
    ] + requirement_keys(v.id@, v.mappings@) + owned_evidence_keys(v.id@, "MODEL-VALIDATION:"@ + v.id@, history)
}

/// The requirement edges of a cross-validation: on the scenario and the model
/// check of every mapping.
pub open spec fn requirement_keys(id: Seq<char>, ms: Seq<ScenarioModelMapping>) -> Seq<Seq<char>>
    decreases ms.len(),
{
    if ms.len() == 0 {
        Seq::empty()
    } else {
        requirement_keys(id, ms.drop_last()) + seq![
            edge_json_parts("ProofObligation"@, "MODEL-VALIDATION:"@ + id, LinkKind::Requires, "ProofObligation"@, "SCENARIO:"@ + ms.last().scenario_id@),
            edge_json_parts("ProofObligation"@, "MODEL-VALIDATION:"@ + id, LinkKind::Requires, "ProofObligation"@, "MODEL:"@ + ms.last().model_check_id@),
        ]
    }
}

/// The edges of the first `n` model checks, by their JSON text.
pub open spec fn models_edge_keys(roots: VerificationRoots, defs: Seq<ModelCheckDefinition>, history: Seq<(String, EvidenceId)>, n: int) -> Seq<Seq<char>>
    decreases n,
{
    if n <= 0 {
        Seq::empty()
    } else {
        models_edge_keys(roots, defs, history, n - 1) + model_edge_keys(roots, defs[n - 1], history)
    }
}

/// The edges of the first `n` cross-validations, by their JSON text.
pub open spec fn validations_edge_keys(roots: VerificationRoots, vs: Seq<ModelValidationDefinition>, history: Seq<(String, EvidenceId)>, n: int) -> Seq<Seq<char>>
    decreases n,
{
    if n <= 0 {
        Seq::empty()
    } else {
        validations_edge_keys(roots, vs, history, n - 1) + validation_edge_keys(roots, vs[n - 1], history)
    }
}

fn push_owned_evidence(out: &mut Vec<GraphEdge>, owner: &str, obligation: &str, history: &Vec<(String, EvidenceId)>)
    ensures
        crate::project::edge_keys(final(out)@) == crate::project::edge_keys(old(out)@) + owned_evidence_keys(owner@, obligation@, history@),
{
    let ghost o0 = crate::project::edge_keys(out@);
    let mut j: usize = 0;
    while j < history.len()
        invariant
            j <= history@.len(),
            crate::project::edge_keys(out@) == o0 + owned_evidence_keys(owner@, obligation@, history@.take(j as int)),
        decreases history.len() - j,
    {
        proof {
            assert(history@.take(j + 1).drop_last() =~= history@.take(j as int));
            assert(history@.take(j + 1).last() == history@[j as int]);
        }
        if str_eq(history[j].0.as_str(), owner) {
            crate::project::push_edge(out, GraphEdge {
                from: GraphNode::ProofObligation(ProofObligationId(own(obligation))),
                kind: LinkKind::EvidenceFor,
                to: GraphNode::Evidence(EvidenceId(history[j].1.0.clone())),
            });
            proof {
                assert(o0 + owned_evidence_keys(owner@, obligation@, history@.take(j + 1)) =~= (o0 + owned_evidence_keys(owner@, obligation@, history@.take(j as int))).push(
                    edge_json_parts("ProofObligation"@, obligation@, LinkKind::EvidenceFor, "Evidence"@, history@[j as int].1.0@)));
            }
        }
        j = j + 1;
    }
    proof {
        assert(history@.take(history@.len() as int) =~= history@);
    }
}

fn model_edges(roots: &VerificationRoots, d: &ModelCheckDefinition, history: &Vec<(String, EvidenceId)>, out: &mut Vec<GraphEdge>)
    ensures
        crate::project::edge_keys(final(out)@) == crate::project::edge_keys(old(out)@) + model_edge_keys(*roots, *d, history@),
{
    let ghost o0 = crate::project::edge_keys(out@);
    let ob = cat("MODEL:", d.id.as_str());
    crate::project::push_edge(out, GraphEdge {
        from: GraphNode::Artifact(ArtifactId(roots.spec_identity(d.source.as_str()))),
        kind: LinkKind::Defines,
        to: GraphNode::ProofObligation(ProofObligationId(ob.clone())),
    });
    let model = crate::roots::join_exec(roots.specification_root.as_str(), d.model.as_str());
    crate::project::push_edge(out, GraphEdge {
        from: GraphNode::Artifact(ArtifactId(roots.spec_identity(model.as_str()))),
        kind: LinkKind::RelevantTo,
        to: GraphNode::ProofObligation(ProofObligationId(ob.clone())),
    });
    push_owned_evidence(out, d.id.as_str(), ob.as_str(), history);
    proof {
        assert(crate::project::edge_keys(out@) =~= o0 + model_edge_keys(*roots, *d, history@));
    }
}

fn validation_edges(roots: &VerificationRoots, v: &ModelValidationDefinition, history: &Vec<(String, EvidenceId)>, out: &mut Vec<GraphEdge>)
    ensures
        crate::project::edge_keys(final(out)@) == crate::project::edge_keys(old(out)@) + validation_edge_keys(*roots, *v, history@),
{
    let ghost o0 = crate::project::edge_keys(out@);
    let ob = cat("MODEL-VALIDATION:", v.id.as_str());
    crate::project::push_edge(out, GraphEdge {
        from: GraphNode::Artifact(ArtifactId(roots.spec_identity(v.source.as_str()))),
        kind: LinkKind::Defines,
        to: GraphNode::ProofObligation(ProofObligationId(ob.clone())),
    });
    let ghost o1 = crate::project::edge_keys(out@);
    let mut i: usize = 0;
    while i < v.mappings.len()
        invariant
            i <= v.mappings@.len(),
            ob@ == "MODEL-VALIDATION:"@ + v.id@,
            crate::project::edge_keys(out@) == o1 + requirement_keys(v.id@, v.mappings@.take(i as int)),
        decreases v.mappings.len() - i,
    {
        proof {
            assert(v.mappings@.take(i + 1).drop_last() =~= v.mappings@.take(i as int));
            assert(v.mappings@.take(i + 1).last() == v.mappings@[i as int]);
        }
        let ghost before = crate::project::edge_keys(out@);
        crate::project::push_edge(out, GraphEdge {
            from: GraphNode::ProofObligation(ProofObligationId(ob.clone())),
            kind: LinkKind::Requires,
            to: GraphNode::ProofObligation(ProofObligationId(cat("SCENARIO:", v.mappings[i].scenario_id.as_str()))),
        });
        crate::project::push_edge(out, GraphEdge {
            from: GraphNode::ProofObligation(ProofObligationId(ob.clone())),
            kind: LinkKind::Requires,
            to: GraphNode::ProofObligation(ProofObligationId(cat("MODEL:", v.mappings[i].model_check_id.as_str()))),
        });
        proof {
            assert(crate::project::edge_keys(out@) =~= o1 + requirement_keys(v.id@, v.mappings@.take(i + 1)));
        }
        i = i + 1;
    }
    proof {
        assert(v.mappings@.take(v.mappings@.len() as int) =~= v.mappings@);
    }
    push_owned_evidence(out, v.id.as_str(), ob.as_str(), history);
    proof {
        assert(crate::project::edge_keys(out@) =~= o0 + validation_edge_keys(*roots, *v, history@));
    }
}

fn all_model_edges(roots: &VerificationRoots, definitions: &Vec<ModelCheckDefinition>, history: &Vec<(String, EvidenceId)>, out: &mut Vec<GraphEdge>)
    ensures
        crate::project::edge_keys(final(out)@) == crate::project::edge_keys(old(out)@) + models_edge_keys(*roots, definitions@, history@, definitions@.len() as int),
{
    let ghost o0 = crate::project::edge_keys(out@);
    let mut i: usize = 0;
    proof {
        assert(o0 + models_edge_keys(*roots, definitions@, history@, 0) =~= o0);
    }
    while i < definitions.len()
        invariant
            i <= definitions@.len(),
            crate::project::edge_keys(out@) == o0 + models_edge_keys(*roots, definitions@, history@, i as int),
        decreases definitions.len() - i,
    {
        model_edges(roots, &definitions[i], history, out);
        proof {
            assert(crate::project::edge_keys(out@) =~= o0 + models_edge_keys(*roots, definitions@, history@, i + 1));
        }
        i = i + 1;
    }
}

fn all_validation_edges(roots: &VerificationRoots, validations: &Vec<ModelValidationDefinition>, history: &Vec<(String, EvidenceId)>, out: &mut Vec<GraphEdge>)
    ensures
        crate::project::edge_keys(final(out)@) == crate::project::edge_keys(old(out)@) + validations_edge_keys(*roots, validations@, history@, validations@.len() as int),
{
    let ghost o0 = crate::project::edge_keys(out@);
    let mut j: usize = 0;
    proof {
        assert(o0 + validations_edge_keys(*roots, validations@, history@, 0) =~= o0);
    }
    while j < validations.len()
        invariant
            j <= validations@.len(),
            crate::project::edge_keys(out@) == o0 + validations_edge_keys(*roots, validations@, history@, j as int),
        decreases validations.len() - j,
    {
        validation_edges(roots, &validations[j], history, out);
        proof {
            assert(crate::project::edge_keys(out@) =~= o0 + validations_edge_keys(*roots, validations@, history@, j + 1));
        }
        j = j + 1;
    }
}

/// The graph edges of the model checks and cross-validations, sorted by their JSON
/// text and each once; `model_history` and `validation_history` list recorded
/// evidence as (definition identifier, evidence identifier).
pub fn graph_edges(
    roots: &VerificationRoots,
    definitions: &Vec<ModelCheckDefinition>,
    validations: &Vec<ModelValidationDefinition>,
    model_history: &Vec<(String, EvidenceId)>,
    validation_history: &Vec<(String, EvidenceId)>,
) -> (r: Vec<GraphEdge>)
    ensures
        crate::keyed::strictly_sorted(r@),
        forall|k: Seq<char>| #[trigger] crate::keyed::has_key(r@, k) <==> (models_edge_keys(*roots, definitions@, model_history@, definitions@.len() as int)
            + validations_edge_keys(*roots, validations@, validation_history@, validations@.len() as int)).contains(k),
{
    let mut out: Vec<GraphEdge> = Vec::new();
    all_model_edges(roots, definitions, model_history, &mut out);
    all_validation_edges(roots, validations, validation_history, &mut out);
    proof {
        assert(crate::project::edge_keys(out@) =~= models_edge_keys(*roots, definitions@, model_history@, definitions@.len() as int)
            + validations_edge_keys(*roots, validations@, validation_history@, validations@.len() as int));
    }
    let ghost raw = out@;
    let r = crate::project::sort_edges(out);
    proof {
        crate::project::lemma_kept_edge_keys(raw, r@);
    }
    r
}

} // verus!
