//! Static correspondence between Rust functions and the actions of a Quint model:
//! what a transition requires of the function's calls, strings and syntax and of
//! the model, and the evidence a run records.
use vstd::prelude::*;
use crate::adr::{Error, strs};
use crate::assembly::{content_of, fingerprinted, inputs_of};
use crate::evidence::{EvidenceValidity, InputFingerprint, VerificationStatus, fingerprint_views, mentions, sha256_hex};
use crate::project::{ArtifactId, EvidenceId, GraphEdge, GraphNode, LinkKind, ProofObligationId, edge_json_parts};
use crate::roots::{SemanticInput, VerificationRoots, identity_of, joined};
use crate::keyed::Keyed;
use crate::text::{cat, cat3, is_empty_str, is_trim_ws, own, str_eq, trim};

verus! {

/// The Rust function a transition names: a file below the project root and a
/// function, either `name` or `Owner::name`.
#[derive(Debug)]
pub struct RustFunctionSelector {
    pub file: String,
    pub function: String,
}

/// What one transition of the model requires of its Rust function.
#[derive(Debug)]
pub struct TransitionCorrespondence {
    pub id: String,
    pub rust: RustFunctionSelector,
    pub model_actions: Vec<String>,
    pub required_calls: Vec<String>,
    pub ordered_calls: Vec<String>,
    pub required_string_fragments: Vec<String>,
    pub required_syntax_fragments: Vec<String>,
    pub authority: String,
    pub does_not_prove: Vec<String>,
}

/// A correspondence check: a model and its transitions.
#[derive(Debug)]
pub struct CorrespondenceDefinition {
    pub id: String,
    pub claim: String,
    pub authority: String,
    pub does_not_prove: Vec<String>,
    pub model: String,
    pub transitions: Vec<TransitionCorrespondence>,
    pub source: String,
}

/// The outcome for one transition.
#[derive(Debug)]
pub struct TransitionAssessment {
    pub id: String,
    pub rust_file: String,
    pub rust_function: String,
    pub model_actions: Vec<String>,
    pub observed_calls: Vec<String>,
    pub missing_requirements: Vec<String>,
    pub status: VerificationStatus,
    pub authority: String,
    pub does_not_prove: Vec<String>,
}

/// Recorded evidence of a correspondence check.
#[derive(Debug)]
pub struct CorrespondenceEvidence {
    pub id: EvidenceId,
    pub obligation: ProofObligationId,
    pub correspondence_id: String,
    pub provider: String,
    pub provider_version: String,
    pub claim: String,
    pub authority: String,
    pub does_not_prove: Vec<String>,
    pub configuration_sha256: String,
    pub inputs: Vec<InputFingerprint>,
    pub transitions: Vec<TransitionAssessment>,
    pub result_at_execution: VerificationStatus,
    pub diagnostics: Vec<String>,
    pub recorded_at_unix_nanos: u128,
}

/// Correspondence evidence with its validity.
#[derive(Debug)]
pub struct CorrespondenceAssessment {
    pub evidence: CorrespondenceEvidence,
    pub current_validity: EvidenceValidity,
}

/// What a function's body holds: the names it calls (in order), its string
/// literals, and its syntax without whitespace.
#[derive(Debug)]
pub struct FunctionFacts {
    pub calls: Vec<String>,
    pub strings: Vec<String>,
    pub syntax: String,
}

/// A function of a Rust file: its name, the type of the `impl` it stands in (if
/// any), and the facts of its body.
#[derive(Debug)]
pub struct FunctionCandidate {
    pub owner: Option<String>,
    pub name: String,
    pub facts: FunctionFacts,
}

/// The name this provider records.
pub fn provider_name() -> (r: &'static str)
    ensures
        r@ == "rust_quint_static_correspondence"@,
{
    "rust_quint_static_correspondence"
}

/// The version of this provider.
pub fn provider_version() -> (r: &'static str)
    ensures
        r@ == "1"@,
{
    "1"
}

// ---------------------------------------------------------------------------
// Definitions
// ---------------------------------------------------------------------------

/// A transition names itself, a file, a function and at least one action.
pub open spec fn transition_complete(t: TransitionCorrespondence) -> bool {
    &&& t.id@.len() > 0
    &&& t.rust.file@.len() > 0
    &&& t.rust.function@.len() > 0
    &&& t.model_actions@.len() > 0
}

/// The first problem among the transitions: one that is incomplete, or one whose
/// identifier an earlier one has.
pub open spec fn transitions_problem(source: Seq<char>, ts: Seq<TransitionCorrespondence>) -> Option<Seq<char>>
    decreases ts.len(),
{
    if ts.len() == 0 {
        None
    } else {
        match transitions_problem(source, ts.drop_last()) {
            Some(m) => Some(m),
            None => if !transition_complete(ts.last()) {
                Some(source + ": every transition requires an id, Rust function, and model action"@)
            } else if exists|j: int| 0 <= j < ts.len() - 1 && (#[trigger] ts[j]).id@ == ts.last().id@ {
                Some(source + ": duplicate transition id `"@ + ts.last().id@ + "`"@)
            } else {
                None
            },
        }
    }
}

/// The problem with a definition, if any.
pub open spec fn definition_problem(d: CorrespondenceDefinition) -> Option<Seq<char>> {
    if d.id@.len() == 0 || d.model@.len() == 0 || d.transitions@.len() == 0 {
        Some(d.source@ + ": correspondence id, model, and transitions are required"@)
    } else {
        transitions_problem(d.source@, d.transitions@)
    }
}

fn transition_complete_exec(t: &TransitionCorrespondence) -> (r: bool)
    ensures
        r == transition_complete(*t),
{
    !is_empty_str(t.id.as_str()) && !is_empty_str(t.rust.file.as_str()) && !is_empty_str(t.rust.function.as_str())
        && t.model_actions.len() > 0
}

/// Checks a correspondence definition.
pub fn validate_definition(d: &CorrespondenceDefinition) -> (r: Result<(), Error>)
    ensures
        match definition_problem(*d) {
            Some(m) => r matches Err(Error::ProviderFailure(x)) && x@ == m,
            None => r is Ok,
        },
{
    if is_empty_str(d.id.as_str()) || is_empty_str(d.model.as_str()) || d.transitions.len() == 0 {
        return Err(Error::ProviderFailure(cat(d.source.as_str(), ": correspondence id, model, and transitions are required")));
    }
    let ghost ts = d.transitions@;
    let mut i: usize = 0;
    while i < d.transitions.len()
        invariant
            i <= ts.len(),
            ts == d.transitions@,
            d.id@.len() > 0 && d.model@.len() > 0 && ts.len() > 0,
            transitions_problem(d.source@, ts.take(i as int)) is None,
        decreases d.transitions.len() - i,
    {
        proof {
            assert(ts.take(i + 1).drop_last() =~= ts.take(i as int));
            assert(ts.take(i + 1).last() == ts[i as int]);
        }
        let t = &d.transitions[i];
        if !transition_complete_exec(t) {
            proof {
                assert(transitions_problem(d.source@, ts.take(i + 1)) == Some(d.source@
                    + ": every transition requires an id, Rust function, and model action"@));
                lemma_problem_prefix(d.source@, ts, i as int + 1);
            }
            return Err(Error::ProviderFailure(cat(d.source.as_str(), ": every transition requires an id, Rust function, and model action")));
        }
        let mut j: usize = 0;
        while j < i
            invariant
                j <= i < ts.len(),
                ts == d.transitions@,
                d.id@.len() > 0 && d.model@.len() > 0 && ts.len() > 0,
                transitions_problem(d.source@, ts.take(i as int)) is None,
                transition_complete(ts[i as int]),
                forall|q: int| 0 <= q < j ==> (#[trigger] ts[q]).id@ != ts[i as int].id@,
            decreases i - j,
        {
            if str_eq(d.transitions[j].id.as_str(), d.transitions[i].id.as_str()) {
                proof {
                    assert(ts.take(i + 1).drop_last() =~= ts.take(i as int));
                    assert(ts.take(i + 1).last() == ts[i as int]);
                    assert(ts.take(i + 1)[j as int] == ts[j as int]);
                    assert(transitions_problem(d.source@, ts.take(i + 1)) == Some(d.source@ + ": duplicate transition id `"@
                        + ts[i as int].id@ + "`"@));
                    lemma_problem_prefix(d.source@, ts, i as int + 1);
                }
                let head = cat(d.source.as_str(), ": duplicate transition id `");
                return Err(Error::ProviderFailure(cat3(head.as_str(), d.transitions[i].id.as_str(), "`")));
            }
            j = j + 1;
        }
        proof {
            assert forall|q: int| 0 <= q < ts.take(i + 1).len() - 1 implies (#[trigger] ts.take(i + 1)[q]).id@ != ts.take(i + 1).last().id@ by {
                assert(ts.take(i + 1)[q] == ts[q]);
            };
        }
        i = i + 1;
    }
    proof {
        assert(ts.take(ts.len() as int) =~= ts);
    }
    Ok(())
}

/// A problem found in a prefix stays the first problem of the whole list.
proof fn lemma_problem_prefix(source: Seq<char>, ts: Seq<TransitionCorrespondence>, n: int)
    requires
        0 <= n <= ts.len(),
        transitions_problem(source, ts.take(n)) is Some,
    ensures
        transitions_problem(source, ts) == transitions_problem(source, ts.take(n)),
    decreases ts.len() - n,
{
    if n < ts.len() {
        assert(ts.take(n + 1).drop_last() =~= ts.take(n));
        lemma_problem_prefix(source, ts, n + 1);
    } else {
        assert(ts.take(n) =~= ts);
    }
}

// ---------------------------------------------------------------------------
// The model's actions
// ---------------------------------------------------------------------------

/// A character that ends an action name: whitespace or `=`.
pub open spec fn ends_name(c: char) -> bool {
    is_trim_ws(c) || c == '='
}

/// The index of the first character at or after `i` that ends a name.
pub open spec fn name_end(s: Seq<char>, i: int) -> int
    decreases s.len() - i,
{
    if i < 0 || i >= s.len() {
        s.len() as int
    } else if ends_name(s[i]) {
        i
    } else {
        name_end(s, i + 1)
    }
}

/// The action a model line declares: after `action ` at the start of the trimmed
/// line, up to the first whitespace or `=`.
pub open spec fn action_in_line(line: Seq<char>) -> Option<Seq<char>> {
    let t = trim(line);
    if "action "@.len() <= t.len() && t.subrange(0, "action "@.len() as int) == "action "@ {
        let rest = t.subrange("action "@.len() as int, t.len() as int);
        Some(rest.subrange(0, name_end(rest, 0)))
    } else {
        None
    }
}

/// `a` is an action the model declares.
pub open spec fn is_model_action(model: Seq<char>, a: Seq<char>) -> bool {
    exists|i: int| 0 <= i < crate::document::lines_from(model, 0).len()
        && action_in_line(#[trigger] crate::document::lines_from(model, 0)[i]) == Some(a)
}

proof fn lemma_name_end_bounds(s: Seq<char>, i: int)
    requires
        0 <= i <= s.len(),
    ensures
        i <= name_end(s, i) <= s.len(),
    decreases s.len() - i,
{
    if i < s.len() && !ends_name(s[i]) {
        lemma_name_end_bounds(s, i + 1);
    }
}

fn action_in_line_exec(line: &str) -> (r: Option<String>)
    ensures
        match r {
            Some(a) => action_in_line(line@) == Some(a@),
            None => action_in_line(line@) is None,
        },
{
    let t = crate::text::trim_string(line);
    if !crate::text::starts_with(t.as_str(), "action ") {
        return None;
    }
    let tc = crate::text::chars_of(t.as_str());
    let start = crate::text::chars_of("action ").len();
    let ghost rest = t@.subrange(start as int, t@.len() as int);
    let mut k: usize = start;
    proof {
        assert(start == "action "@.len());
    }
    while k < tc.len() && !(crate::text::is_trim_ws_exec(tc[k]) || tc[k] == '=')
        invariant
            start <= k <= tc@.len(),
            start == "action "@.len(),
            tc@ == t@,
            rest == t@.subrange(start as int, t@.len() as int),
            name_end(rest, 0) == name_end(rest, k - start),
        decreases tc.len() - k,
    {
        proof {
            assert(rest[k - start] == tc@[k as int]);
        }
        k = k + 1;
    }
    proof {
        if k < tc@.len() {
            assert(rest[k - start] == tc@[k as int]);
        }
        assert(name_end(rest, k - start) == k - start);
        assert(rest.subrange(0, (k - start) as int) =~= t@.subrange(start as int, k as int));
    }
    Some(crate::text::slice_string(&tc, start, k))
}

/// The actions the model declares, each once.
pub fn model_actions(model: &str) -> (r: Vec<String>)
    ensures
        forall|a: Seq<char>| #[trigger] strs(r@).contains(a) <==> is_model_action(model@, a),
{
    let ls = crate::document::lines(model);
    let ghost lv = crate::document::lines_from(model@, 0);
    proof {
        assert(ls@.map_values(|l: String| l@) == lv);
    }
    let mut out: Vec<String> = Vec::new();
    let mut i: usize = 0;
    while i < ls.len()
        invariant
            i <= ls@.len(),
            ls@.map_values(|l: String| l@) == lv,
            forall|a: Seq<char>| #[trigger] strs(out@).contains(a) <==> exists|q: int| 0 <= q < i && action_in_line(#[trigger] lv[q]) == Some(a),
        decreases ls.len() - i,
    {
        proof {
            assert(lv[i as int] == ls@[i as int]@);
        }
        match action_in_line_exec(ls[i].as_str()) {
            Some(a) => {
                let ghost o0 = strs(out@);
                out.push(a);
                proof {
                    assert(strs(out@) =~= o0.push(a@));
                    assert forall|x: Seq<char>| #[trigger] strs(out@).contains(x) <==> exists|q: int| 0 <= q < i + 1
                        && action_in_line(#[trigger] lv[q]) == Some(x) by {
                        if x == a@ {
                            assert(strs(out@)[o0.len() as int] == x);
                        }
                        if o0.contains(x) {
                            let t = choose|t: int| 0 <= t < o0.len() && o0[t] == x;
                            assert(strs(out@)[t] == x);
                        }
                        if strs(out@).contains(x) && x != a@ {
                            let t = choose|t: int| 0 <= t < strs(out@).len() && strs(out@)[t] == x;
                            assert(o0[t] == x);
                        }
                    };
                }
            },
            None => {},
        }
        i = i + 1;
    }
    proof {
        assert forall|a: Seq<char>| #[trigger] strs(out@).contains(a) <==> is_model_action(model@, a) by {
            assert(lv.len() == ls@.len());
        };
    }
    out
}

// ---------------------------------------------------------------------------
// Requirements on a function
// ---------------------------------------------------------------------------

/// `r` occurs in `o` in order, not necessarily adjacent.
pub open spec fn is_subseq(r: Seq<Seq<char>>, o: Seq<Seq<char>>) -> bool
    decreases o.len(),
{
    if r.len() == 0 {
        true
    } else if o.len() == 0 {
        false
    } else if o[0] == r[0] {
        is_subseq(r.drop_first(), o.drop_first())
    } else {
        is_subseq(r, o.drop_first())
    }
}

/// Whether the required names occur in the observed ones in order.
pub fn is_subsequence(required: &Vec<String>, observed: &Vec<String>) -> (r: bool)
    ensures
        r == is_subseq(strs(required@), strs(observed@)),
{
    let ghost rv = strs(required@);
    let ghost ov = strs(observed@);
    let mut j: usize = 0;
    let mut i: usize = 0;
    proof {
        assert(rv.skip(0) =~= rv);
        assert(ov.skip(0) =~= ov);
    }
    while i < observed.len()
        invariant
            i <= ov.len(),
            j <= rv.len(),
            rv == strs(required@),
            ov == strs(observed@),
            is_subseq(rv, ov) == is_subseq(rv.skip(j as int), ov.skip(i as int)),
        decreases observed.len() - i,
    {
        if j == required.len() {
            proof {
                assert(rv.skip(j as int).len() == 0);
            }
            return true;
        }
        proof {
            assert(ov.skip(i as int)[0] == observed@[i as int]@);
            assert(rv.skip(j as int)[0] == required@[j as int]@);
            assert(ov.skip(i as int).drop_first() =~= ov.skip(i + 1));
            assert(rv.skip(j as int).drop_first() =~= rv.skip(j + 1));
        }
        if str_eq(observed[i].as_str(), required[j].as_str()) {
            j = j + 1;
        }
        i = i + 1;
    }
    proof {
        assert(ov.skip(i as int).len() == 0);
    }
    j == required.len()
}

/// The text without whitespace.
pub open spec fn compact(s: Seq<char>) -> Seq<char>
    decreases s.len(),
{
    if s.len() == 0 {
        s
    } else if is_trim_ws(s.last()) {
        compact(s.drop_last())
    } else {
        compact(s.drop_last()).push(s.last())
    }
}

/// Drops every whitespace character.
pub fn compact_syntax(value: &str) -> (r: String)
    ensures
        r@ == compact(value@),
{
    let cs = crate::text::chars_of(value);
    let mut out: Vec<char> = Vec::new();
    let mut i: usize = 0;
    while i < cs.len()
        invariant
            i <= cs@.len(),
            cs@ == value@,
            out@ == compact(cs@.take(i as int)),
        decreases cs.len() - i,
    {
        proof {
            assert(cs@.take(i + 1).drop_last() =~= cs@.take(i as int));
            assert(cs@.take(i + 1).last() == cs@[i as int]);
        }
        if !crate::text::is_trim_ws_exec(cs[i]) {
            out.push(cs[i]);
        }
        i = i + 1;
    }
    proof {
        assert(cs@.take(cs@.len() as int) =~= cs@);
    }
    crate::text::string_from_chars(out.as_slice())
}

/// The kinds of requirement a transition makes.
#[derive(Debug, Clone, Copy, PartialEq, Eq, Structural)]
pub enum Requirement {
    Call,
    StringFragment,
    SyntaxFragment,
    ModelAction,
}

/// The requirement `x` of kind `k` is met by the function's facts and the model.
pub open spec fn requirement_met(k: Requirement, facts: FunctionFacts, model: Seq<char>, x: Seq<char>) -> bool {
    match k {
        Requirement::Call => strs(facts.calls@).contains(x),
        Requirement::StringFragment => exists|i: int| 0 <= i < facts.strings@.len() && mentions(#[trigger] facts.strings@[i]@, x),
        Requirement::SyntaxFragment => mentions(facts.syntax@, compact(x)),
        Requirement::ModelAction => is_model_action(model, x),
    }
}

/// The message for an unmet requirement.
pub open spec fn requirement_message(k: Requirement, x: Seq<char>) -> Seq<char> {
    match k {
        Requirement::Call => "missing Rust call `"@ + x + "`"@,
        Requirement::StringFragment => "missing Rust string fragment `"@ + x + "`"@,
        Requirement::SyntaxFragment => "missing Rust AST fragment `"@ + x + "`"@,
        Requirement::ModelAction => "missing Quint action `"@ + x + "`"@,
    }
}

/// A message for every unmet requirement of kind `k`, in order.
pub open spec fn unmet(k: Requirement, facts: FunctionFacts, model: Seq<char>, items: Seq<Seq<char>>) -> Seq<Seq<char>>
    decreases items.len(),
{
    if items.len() == 0 {
        Seq::empty()
    } else {
        let m = unmet(k, facts, model, items.drop_last());
        if requirement_met(k, facts, model, items.last()) {
            m
        } else {
            m.push(requirement_message(k, items.last()))
        }
    }
}

/// The items separated by ` -> `.
pub open spec fn arrow_list(s: Seq<Seq<char>>) -> Seq<char>
    decreases s.len(),
{
    if s.len() == 0 {
        Seq::empty()
    } else if s.len() == 1 {
        s[0]
    } else {
        arrow_list(s.drop_last()) + " -> "@ + s.last()
    }
}

/// What the function lacks of what the transition requires: calls, the order of
/// calls, string and syntax fragments, and the model's actions.
pub open spec fn missing_of(t: TransitionCorrespondence, facts: FunctionFacts, model: Seq<char>) -> Seq<Seq<char>> {
    unmet(Requirement::Call, facts, model, strs(t.required_calls@))
        + (if is_subseq(strs(t.ordered_calls@), strs(facts.calls@)) {
        Seq::empty()
    } else {
        seq!["Rust calls do not contain required order ["@ + arrow_list(strs(t.ordered_calls@)) + "]"@]
    }) + unmet(Requirement::StringFragment, facts, model, strs(t.required_string_fragments@)) + unmet(
        Requirement::SyntaxFragment,
        facts,
        model,
        strs(t.required_syntax_fragments@),
    ) + unmet(Requirement::ModelAction, facts, model, strs(t.model_actions@))
}

fn requirement_met_exec(k: Requirement, facts: &FunctionFacts, actions: &Vec<String>, model: Ghost<Seq<char>>, x: &str) -> (r: bool)
    requires
        forall|a: Seq<char>| #[trigger] strs(actions@).contains(a) <==> is_model_action(model@, a),
    ensures
        r == requirement_met(k, *facts, model@, x@),
{
    match k {
        Requirement::Call => {
            let r = crate::keyed::contains_str(&facts.calls, x);
            proof {
                if r {
                    let i = choose|i: int| 0 <= i < facts.calls@.len() && facts.calls@[i]@ == x@;
                    assert(strs(facts.calls@)[i] == x@);
                }
                if strs(facts.calls@).contains(x@) {
                    let i = choose|i: int| 0 <= i < strs(facts.calls@).len() && strs(facts.calls@)[i] == x@;
                    assert(facts.calls@[i]@ == x@);
                }
            }
            r
        },
        Requirement::StringFragment => {
            let mut i: usize = 0;
            while i < facts.strings.len()
                invariant
                    i <= facts.strings@.len(),
                    k == Requirement::StringFragment,
                    forall|q: int| 0 <= q < i ==> !mentions(#[trigger] facts.strings@[q]@, x@),
                decreases facts.strings.len() - i,
            {
                if crate::evidence::mentions_exec(facts.strings[i].as_str(), x) {
                    proof {
                        assert(mentions(facts.strings@[i as int]@, x@));
                    }
                    return true;
                }
                i = i + 1;
            }
            false
        },
        Requirement::SyntaxFragment => {
            let c = compact_syntax(x);
            crate::evidence::mentions_exec(facts.syntax.as_str(), c.as_str())
        },
        Requirement::ModelAction => {
            let r = crate::keyed::contains_str(actions, x);
            proof {
                if r {
                    let i = choose|i: int| 0 <= i < actions@.len() && actions@[i]@ == x@;
                    assert(strs(actions@)[i] == x@);
                }
                if strs(actions@).contains(x@) {
                    let i = choose|i: int| 0 <= i < strs(actions@).len() && strs(actions@)[i] == x@;
                    assert(actions@[i]@ == x@);
                }
            }
            r
        },
    }
}

fn push_unmet(
    out: &mut Vec<String>,
    k: Requirement,
    facts: &FunctionFacts,
    actions: &Vec<String>,
    model: Ghost<Seq<char>>,
    items: &Vec<String>,
)
    requires
        forall|a: Seq<char>| #[trigger] strs(actions@).contains(a) <==> is_model_action(model@, a),
    ensures
        strs(final(out)@) == strs(old(out)@) + unmet(k, *facts, model@, strs(items@)),
{
    let ghost o0 = strs(out@);
    let mut i: usize = 0;
    while i < items.len()
        invariant
            i <= items@.len(),
            forall|a: Seq<char>| #[trigger] strs(actions@).contains(a) <==> is_model_action(model@, a),
            strs(out@) == o0 + unmet(k, *facts, model@, strs(items@).take(i as int)),
        decreases items.len() - i,
    {
        proof {
            assert(strs(items@).take(i + 1).drop_last() =~= strs(items@).take(i as int));
            assert(strs(items@).take(i + 1).last() == items@[i as int]@);
        }
        if !requirement_met_exec(k, facts, actions, model, items[i].as_str()) {
            let ghost before = strs(out@);
            let line = match k {
                Requirement::Call => cat3("missing Rust call `", items[i].as_str(), "`"),
                Requirement::StringFragment => cat3("missing Rust string fragment `", items[i].as_str(), "`"),
                Requirement::SyntaxFragment => cat3("missing Rust AST fragment `", items[i].as_str(), "`"),
                Requirement::ModelAction => cat3("missing Quint action `", items[i].as_str(), "`"),
            };
            out.push(line);
            proof {
                assert(strs(out@) =~= before.push(requirement_message(k, items@[i as int]@)));
            }
        }
        i = i + 1;
    }
    proof {
        assert(strs(items@).take(items@.len() as int) =~= strs(items@));
    }
}

fn arrow_list_exec(v: &Vec<String>) -> (r: String)
    ensures
        r@ == arrow_list(strs(v@)),
{
    let mut r = String::new();
    let mut i: usize = 0;
    while i < v.len()
        invariant
            i <= v@.len(),
            r@ == arrow_list(strs(v@.take(i as int))),
        decreases v.len() - i,
    {
        proof {
            assert(strs(v@.take(i + 1)).drop_last() =~= strs(v@.take(i as int)));
            assert(strs(v@.take(i + 1)).last() == v@[i as int]@);
        }
        if i == 0 {
            r = v[0].clone();
        } else {
            r.append(" -> ");
            r.append(v[i].as_str());
        }
        i = i + 1;
    }
    proof {
        assert(v@.take(v@.len() as int) =~= v@);
    }
    r
}

/// What the function lacks of what the transition requires, given the model's
/// actions.
pub fn missing_requirements(
    t: &TransitionCorrespondence,
    facts: &FunctionFacts,
    actions: &Vec<String>,
    model: Ghost<Seq<char>>,
) -> (r: Vec<String>)
    requires
        forall|a: Seq<char>| #[trigger] strs(actions@).contains(a) <==> is_model_action(model@, a),
    ensures
        strs(r@) == missing_of(*t, *facts, model@),
{
    let mut out: Vec<String> = Vec::new();
    proof {
        assert(strs(out@) =~= Seq::<Seq<char>>::empty());
    }
    push_unmet(&mut out, Requirement::Call, facts, actions, model, &t.required_calls);
    let ghost o1 = strs(out@);
    if !is_subsequence(&t.ordered_calls, &facts.calls) {
        let order = arrow_list_exec(&t.ordered_calls);
        out.push(cat3("Rust calls do not contain required order [", order.as_str(), "]"));
        proof {
            assert(strs(out@) =~= o1.push("Rust calls do not contain required order ["@ + arrow_list(strs(t.ordered_calls@)) + "]"@));
        }
    }
    push_unmet(&mut out, Requirement::StringFragment, facts, actions, model, &t.required_string_fragments);
    push_unmet(&mut out, Requirement::SyntaxFragment, facts, actions, model, &t.required_syntax_fragments);
    push_unmet(&mut out, Requirement::ModelAction, facts, actions, model, &t.model_actions);
    proof {
        assert(strs(out@) =~= missing_of(*t, *facts, model@));
    }
    out
}

// ---------------------------------------------------------------------------
// Selecting the function
// ---------------------------------------------------------------------------

/// The candidate is the function the selector names: by name, or by
/// `Owner::name` when it stands in an `impl` of `Owner`.
pub open spec fn selects(c: FunctionCandidate, selector: Seq<char>) -> bool {
    c.name@ == selector || (c.owner matches Some(o) && o@ + "::"@ + c.name@ == selector)
}

/// How many candidates the selector names.
pub open spec fn match_count(cs: Seq<FunctionCandidate>, selector: Seq<char>) -> nat
    decreases cs.len(),
{
    if cs.len() == 0 {
        0
    } else {
        match_count(cs.drop_last(), selector) + if selects(cs.last(), selector) {
            1nat
        } else {
            0nat
        }
    }
}

/// The two facts say the same.
pub open spec fn same_facts(a: FunctionFacts, b: FunctionFacts) -> bool {
    a.calls@ == b.calls@ && a.strings@ == b.strings@ && a.syntax@ == b.syntax@
}

proof fn lemma_match_count(cs: Seq<FunctionCandidate>, selector: Seq<char>, i: int)
    requires
        0 <= i < cs.len(),
        selects(cs[i], selector),
    ensures
        match_count(cs, selector) >= 1,
    decreases cs.len(),
{
    if i < cs.len() - 1 {
        assert(cs.drop_last()[i] == cs[i]);
        lemma_match_count(cs.drop_last(), selector, i);
    }
}

fn selects_exec(c: &FunctionCandidate, selector: &str) -> (r: bool)
    ensures
        r == selects(*c, selector@),
{
    if str_eq(c.name.as_str(), selector) {
        return true;
    }
    match &c.owner {
        Some(o) => {
            let q = cat3(o.as_str(), "::", c.name.as_str());
            str_eq(q.as_str(), selector)
        },
        None => false,
    }
}

fn clone_facts(f: &FunctionFacts) -> (r: FunctionFacts)
    ensures
        same_facts(r, *f),
{
    FunctionFacts {
        calls: crate::project::clone_strings(&f.calls),
        strings: crate::project::clone_strings(&f.strings),
        syntax: f.syntax.clone(),
    }
}

/// The facts of the one function the selector names; an error when it names none
/// or more than one.
pub fn function_facts(candidates: &Vec<FunctionCandidate>, selector: &str) -> (r: Result<FunctionFacts, String>)
    ensures
        match_count(candidates@, selector@) == 0 ==> (r matches Err(m) && m@ == "missing Rust function `"@ + selector@ + "`"@),
        match_count(candidates@, selector@) > 1 ==> (r matches Err(m) && m@ == "ambiguous Rust function selector `"@ + selector@ + "`"@),
        match_count(candidates@, selector@) == 1 ==> (r matches Ok(f) && exists|i: int| 0 <= i < candidates@.len()
            && selects(#[trigger] candidates@[i], selector@) && same_facts(f, candidates@[i].facts)),
{
    let mut found: Option<usize> = None;
    let mut count: usize = 0;
    let mut i: usize = 0;
    while i < candidates.len()
        invariant
            i <= candidates@.len(),
            count == match_count(candidates@.take(i as int), selector@),
            count <= i,
            found matches Some(j) ==> j < i && selects(candidates@[j as int], selector@),
            found is None ==> count == 0,
        decreases candidates.len() - i,
    {
        proof {
            assert(candidates@.take(i + 1).drop_last() =~= candidates@.take(i as int));
            assert(candidates@.take(i + 1).last() == candidates@[i as int]);
        }
        if selects_exec(&candidates[i], selector) {
            count = count + 1;
            found = Some(i);
        }
        i = i + 1;
    }
    proof {
        assert(candidates@.take(candidates@.len() as int) =~= candidates@);
    }
    if count == 0 {
        return Err(cat3("missing Rust function `", selector, "`"));
    }
    if count > 1 {
        return Err(cat3("ambiguous Rust function selector `", selector, "`"));
    }
    match found {
        Some(j) => Ok(clone_facts(&candidates[j].facts)),
        None => Err(cat3("missing Rust function `", selector, "`")),
    }
}

// ---------------------------------------------------------------------------
// Running a check
// ---------------------------------------------------------------------------

/// The facts of the selected function, when exactly one is named.
pub open spec fn selected_facts(cs: Seq<FunctionCandidate>, selector: Seq<char>) -> FunctionFacts {
    cs[choose|i: int| 0 <= i < cs.len() && selects(#[trigger] cs[i], selector)].facts
}

/// The status of a transition: an error when its file could not be parsed, a
/// failure when its function is not named once or lacks a requirement, else a pass.
pub open spec fn transition_status(t: TransitionCorrespondence, parsed: Result<Vec<FunctionCandidate>, String>, model: Seq<char>) -> VerificationStatus {
    match parsed {
        Err(_) => VerificationStatus::Error,
        Ok(cs) => if match_count(cs@, t.rust.function@) != 1 {
            VerificationStatus::Fail
        } else if missing_of(t, selected_facts(cs@, t.rust.function@), model).len() == 0 {
            VerificationStatus::Pass
        } else {
            VerificationStatus::Fail
        },
    }
}

/// What a transition lacks: nothing when its file could not be parsed, the
/// selection error when its function is not named once, else the unmet
/// requirements.
pub open spec fn transition_missing(t: TransitionCorrespondence, parsed: Result<Vec<FunctionCandidate>, String>, model: Seq<char>) -> Seq<Seq<char>> {
    match parsed {
        Err(_) => Seq::empty(),
        Ok(cs) => if match_count(cs@, t.rust.function@) == 0 {
            seq!["missing Rust function `"@ + t.rust.function@ + "`"@]
        } else if match_count(cs@, t.rust.function@) > 1 {
            seq!["ambiguous Rust function selector `"@ + t.rust.function@ + "`"@]
        } else {
            missing_of(t, selected_facts(cs@, t.rust.function@), model)
        },
    }
}

/// The calls observed in the selected function, when exactly one is named.
pub open spec fn transition_calls(t: TransitionCorrespondence, parsed: Result<Vec<FunctionCandidate>, String>) -> Seq<Seq<char>> {
    match parsed {
        Ok(cs) => if match_count(cs@, t.rust.function@) == 1 {
            strs(selected_facts(cs@, t.rust.function@).calls@)
        } else {
            Seq::empty()
        },
        Err(_) => Seq::empty(),
    }
}

/// Each item prefixed with `id: `.
pub open spec fn prefixed(id: Seq<char>, s: Seq<Seq<char>>) -> Seq<Seq<char>> {
    s.map_values(|m: Seq<char>| id + ": "@ + m)
}

/// The diagnostics of a transition: the parse error of its file, or, unless it
/// passes, what it lacks, each under its identifier.
pub open spec fn transition_diagnostics(t: TransitionCorrespondence, parsed: Result<Vec<FunctionCandidate>, String>, model: Seq<char>) -> Seq<Seq<char>> {
    match parsed {
        Err(e) => seq![t.id@ + " could not parse "@ + t.rust.file@ + ": "@ + e@],
        Ok(_) => if transition_status(t, parsed, model) == VerificationStatus::Pass {
            Seq::empty()
        } else {
            prefixed(t.id@, transition_missing(t, parsed, model))
        },
    }
}

/// The assessment records the transition and its outcome.
pub open spec fn assessment_of(
    roots: VerificationRoots,
    t: TransitionCorrespondence,
    parsed: Result<Vec<FunctionCandidate>, String>,
    model: Seq<char>,
    a: TransitionAssessment,
) -> bool {
    &&& a.id@ == t.id@
    &&& a.rust_file@ == identity_of("project"@, roots.project_root@, joined(roots.project_root@, t.rust.file@))
    &&& a.rust_function@ == t.rust.function@
    &&& strs(a.model_actions@) == strs(t.model_actions@)
    &&& strs(a.observed_calls@) == transition_calls(t, parsed)
    &&& strs(a.missing_requirements@) == transition_missing(t, parsed, model)
    &&& a.status == transition_status(t, parsed, model)
    &&& a.authority@ == t.authority@
    &&& strs(a.does_not_prove@) == strs(t.does_not_prove@)
}

/// The overall result: an error if any transition erred, else a failure if any
/// failed, else a pass if there is any transition and all passed, else unverified.
pub open spec fn aggregate_of(s: Seq<VerificationStatus>) -> VerificationStatus {
    if exists|i: int| 0 <= i < s.len() && s[i] == VerificationStatus::Error {
        VerificationStatus::Error
    } else if exists|i: int| 0 <= i < s.len() && s[i] == VerificationStatus::Fail {
        VerificationStatus::Fail
    } else if s.len() > 0 && forall|i: int| 0 <= i < s.len() ==> s[i] == VerificationStatus::Pass {
        VerificationStatus::Pass
    } else {
        VerificationStatus::Unverified
    }
}

/// The statuses of the assessments.
pub open spec fn statuses(s: Seq<TransitionAssessment>) -> Seq<VerificationStatus> {
    s.map_values(|a: TransitionAssessment| a.status)
}

/// The overall result of the transitions' assessments.
pub fn aggregate(assessments: &Vec<TransitionAssessment>) -> (r: VerificationStatus)
    ensures
        r == aggregate_of(statuses(assessments@)),
{
    let ghost s = statuses(assessments@);
    let mut error = false;
    let mut fail = false;
    let mut all_pass = true;
    let mut i: usize = 0;
    while i < assessments.len()
        invariant
            i <= assessments@.len(),
            s == statuses(assessments@),
            error == exists|q: int| 0 <= q < i && s[q] == VerificationStatus::Error,
            fail == exists|q: int| 0 <= q < i && s[q] == VerificationStatus::Fail,
            all_pass == forall|q: int| 0 <= q < i ==> s[q] == VerificationStatus::Pass,
        decreases assessments.len() - i,
    {
        let st = assessments[i].status;
        proof {
            assert(s[i as int] == st);
        }
        if st == VerificationStatus::Error {
            error = true;
        }
        if st == VerificationStatus::Fail {
            fail = true;
        }
        if st != VerificationStatus::Pass {
            all_pass = false;
        }
        proof {
            assert(error == exists|q: int| 0 <= q < i + 1 && s[q] == VerificationStatus::Error) by {
                if st == VerificationStatus::Error {
                    assert(s[i as int] == VerificationStatus::Error);
                }
            };
            assert(fail == exists|q: int| 0 <= q < i + 1 && s[q] == VerificationStatus::Fail) by {
                if st == VerificationStatus::Fail {
                    assert(s[i as int] == VerificationStatus::Fail);
                }
            };
        }
        i = i + 1;
    }
    if error {
        VerificationStatus::Error
    } else if fail {
        VerificationStatus::Fail
    } else if assessments.len() > 0 && all_pass {
        VerificationStatus::Pass
    } else {
        VerificationStatus::Unverified
    }
}

/// The diagnostics of the first `n` transitions, in order.
pub open spec fn run_diagnostics(d: CorrespondenceDefinition, parsed: Seq<Result<Vec<FunctionCandidate>, String>>, model: Seq<char>, n: int) -> Seq<Seq<char>>
    decreases n,
{
    if n <= 0 {
        Seq::empty()
    } else {
        run_diagnostics(d, parsed, model, n - 1) + transition_diagnostics(d.transitions@[n - 1], parsed[n - 1], model)
    }
}

fn prefix_lines(out: &mut Vec<String>, id: &str, lines: &Vec<String>)
    ensures
        strs(final(out)@) == strs(old(out)@) + prefixed(id@, strs(lines@)),
{
    let ghost o0 = strs(out@);
    let mut i: usize = 0;
    while i < lines.len()
        invariant
            i <= lines@.len(),
            strs(out@) == o0 + prefixed(id@, strs(lines@).take(i as int)),
        decreases lines.len() - i,
    {
        let ghost before = strs(out@);
        out.push(cat3(id, ": ", lines[i].as_str()));
        proof {
            assert(prefixed(id@, strs(lines@).take(i + 1)) =~= prefixed(id@, strs(lines@).take(i as int)).push(id@ + ": "@ + lines@[i as int]@));
            assert(strs(out@) =~= before.push(id@ + ": "@ + lines@[i as int]@));
        }
        i = i + 1;
    }
    proof {
        assert(strs(lines@).take(lines@.len() as int) =~= strs(lines@));
    }
}

fn assess_transition(
    roots: &VerificationRoots,
    t: &TransitionCorrespondence,
    parsed: &Result<Vec<FunctionCandidate>, String>,
    actions: &Vec<String>,
    model: Ghost<Seq<char>>,
    diagnostics: &mut Vec<String>,
) -> (a: TransitionAssessment)
    requires
        forall|x: Seq<char>| #[trigger] strs(actions@).contains(x) <==> is_model_action(model@, x),
    ensures
        assessment_of(*roots, *t, *parsed, model@, a),
        strs(final(diagnostics)@) == strs(old(diagnostics)@) + transition_diagnostics(*t, *parsed, model@),
{
    let mut missing: Vec<String> = Vec::new();
    let mut observed: Vec<String> = Vec::new();
    let ghost d0 = strs(diagnostics@);
    let status = match parsed {
        Err(e) => {
            let head = cat3(t.id.as_str(), " could not parse ", t.rust.file.as_str());
            diagnostics.push(cat3(head.as_str(), ": ", e.as_str()));
            proof {
                assert(strs(diagnostics@) =~= d0 + transition_diagnostics(*t, *parsed, model@));
                assert(strs(missing@) =~= transition_missing(*t, *parsed, model@));
                assert(strs(observed@) =~= transition_calls(*t, *parsed));
            }
            VerificationStatus::Error
        },
        Ok(cs) => {
            match function_facts(cs, t.rust.function.as_str()) {
                Err(m) => {
                    missing.push(m);
                    proof {
                        assert(strs(missing@) =~= transition_missing(*t, *parsed, model@));
                        assert(strs(observed@) =~= transition_calls(*t, *parsed));
                    }
                    prefix_lines(diagnostics, t.id.as_str(), &missing);
                    VerificationStatus::Fail
                },
                Ok(facts) => {
                    proof {
                        let i = choose|i: int| 0 <= i < cs@.len() && selects(#[trigger] cs@[i], t.rust.function@) && same_facts(facts, cs@[i].facts);
                        lemma_single_match(cs@, t.rust.function@, i);
                        assert(same_facts(facts, selected_facts(cs@, t.rust.function@)));
                        lemma_missing_same_facts(*t, facts, selected_facts(cs@, t.rust.function@), model@);
                    }
                    observed = crate::project::clone_strings(&facts.calls);
                    missing = missing_requirements(t, &facts, actions, model);
                    if missing.len() == 0 {
                        proof {
                            assert(strs(diagnostics@) =~= d0 + transition_diagnostics(*t, *parsed, model@));
                        }
                        VerificationStatus::Pass
                    } else {
                        prefix_lines(diagnostics, t.id.as_str(), &missing);
                        VerificationStatus::Fail
                    }
                },
            }
        },
    };
    let path = crate::roots::join_exec(roots.project_root.as_str(), t.rust.file.as_str());
    TransitionAssessment {
        id: t.id.clone(),
        rust_file: roots.project_identity(path.as_str()),
        rust_function: t.rust.function.clone(),
        model_actions: crate::project::clone_strings(&t.model_actions),
        observed_calls: observed,
        missing_requirements: missing,
        status,
        authority: t.authority.clone(),
        does_not_prove: crate::project::clone_strings(&t.does_not_prove),
    }
}

/// With exactly one candidate named, the one found is the one selected.
proof fn lemma_single_match(cs: Seq<FunctionCandidate>, selector: Seq<char>, i: int)
    requires
        0 <= i < cs.len(),
        selects(cs[i], selector),
        match_count(cs, selector) == 1,
    ensures
        selected_facts(cs, selector) == cs[i].facts,
{
    let j = choose|j: int| 0 <= j < cs.len() && selects(#[trigger] cs[j], selector);
    if j != i {
        lemma_two_matches(cs, selector, i, j);
    }
}

proof fn lemma_two_matches(cs: Seq<FunctionCandidate>, selector: Seq<char>, i: int, j: int)
    requires
        0 <= i < cs.len(),
        0 <= j < cs.len(),
        i != j,
        selects(cs[i], selector),
        selects(cs[j], selector),
    ensures
        match_count(cs, selector) >= 2,
    decreases cs.len(),
{
    let n = cs.len() - 1;
    if i == n {
        assert(cs.drop_last()[j] == cs[j]);
        lemma_match_count(cs.drop_last(), selector, j);
    } else if j == n {
        assert(cs.drop_last()[i] == cs[i]);
        lemma_match_count(cs.drop_last(), selector, i);
    } else {
        assert(cs.drop_last()[i] == cs[i]);
        assert(cs.drop_last()[j] == cs[j]);
        lemma_two_matches(cs.drop_last(), selector, i, j);
    }
}

proof fn lemma_unmet_same(k: Requirement, a: FunctionFacts, b: FunctionFacts, model: Seq<char>, items: Seq<Seq<char>>)
    requires
        same_facts(a, b),
    ensures
        unmet(k, a, model, items) == unmet(k, b, model, items),
    decreases items.len(),
{
    if items.len() > 0 {
        lemma_unmet_same(k, a, b, model, items.drop_last());
        assert(strs(a.calls@) == strs(b.calls@));
        assert(requirement_met(k, a, model, items.last()) == requirement_met(k, b, model, items.last()));
    }
}

proof fn lemma_missing_same_facts(t: TransitionCorrespondence, a: FunctionFacts, b: FunctionFacts, model: Seq<char>)
    requires
        same_facts(a, b),
    ensures
        missing_of(t, a, model) == missing_of(t, b, model),
        strs(a.calls@) == strs(b.calls@),
{
    lemma_unmet_same(Requirement::Call, a, b, model, strs(t.required_calls@));
    lemma_unmet_same(Requirement::StringFragment, a, b, model, strs(t.required_string_fragments@));
    lemma_unmet_same(Requirement::SyntaxFragment, a, b, model, strs(t.required_syntax_fragments@));
    lemma_unmet_same(Requirement::ModelAction, a, b, model, strs(t.model_actions@));
    assert(strs(a.calls@) == strs(b.calls@));
}

/// Runs a correspondence check: `model` is the text of the model, `parsed[i]` the
/// functions of the file of transition `i` (or why it could not be parsed),
/// `inputs` the current fingerprints of the check's inputs, `configuration` the
/// serialized definition, and `recorded_at_unix_nanos` the time of recording.
pub fn run(
    roots: &VerificationRoots,
    definition: &CorrespondenceDefinition,
    model: &str,
    parsed: &Vec<Result<Vec<FunctionCandidate>, String>>,
    inputs: Vec<InputFingerprint>,
    configuration: &[u8],
    recorded_at_unix_nanos: u128,
) -> (e: CorrespondenceEvidence)
    requires
        parsed@.len() == definition.transitions@.len(),
    ensures
        e.id.0@ == "pending"@,
        e.obligation.0@ == "CORRESPONDENCE:"@ + definition.id@,
        e.correspondence_id@ == definition.id@,
        e.provider@ == "rust_quint_static_correspondence"@,
        e.provider_version@ == "1"@,
        e.claim@ == definition.claim@,
        e.authority@ == definition.authority@,
        strs(e.does_not_prove@) == strs(definition.does_not_prove@),
        e.configuration_sha256@ == sha256_hex(configuration@),
        e.inputs@ == inputs@,
        e.transitions@.len() == definition.transitions@.len(),
        forall|i: int| 0 <= i < definition.transitions@.len() ==> assessment_of(*roots, definition.transitions@[i], parsed@[i], model@,
            #[trigger] e.transitions@[i]),
        e.result_at_execution == aggregate_of(statuses(e.transitions@)),
        strs(e.diagnostics@) == run_diagnostics(*definition, parsed@, model@, definition.transitions@.len() as int),
        e.recorded_at_unix_nanos == recorded_at_unix_nanos,
{
    let actions = model_actions(model);
    let mut assessments: Vec<TransitionAssessment> = Vec::new();
    let mut diagnostics: Vec<String> = Vec::new();
    proof {
        assert(strs(diagnostics@) =~= run_diagnostics(*definition, parsed@, model@, 0));
    }
    let mut i: usize = 0;
    while i < definition.transitions.len()
        invariant
            i <= definition.transitions@.len(),
            parsed@.len() == definition.transitions@.len(),
            forall|x: Seq<char>| #[trigger] strs(actions@).contains(x) <==> is_model_action(model@, x),
            assessments@.len() == i,
            forall|q: int| 0 <= q < i ==> assessment_of(*roots, definition.transitions@[q], parsed@[q], model@, #[trigger] assessments@[q]),
            strs(diagnostics@) == run_diagnostics(*definition, parsed@, model@, i as int),
        decreases definition.transitions.len() - i,
    {
        let a = assess_transition(roots, &definition.transitions[i], &parsed[i], &actions, Ghost(model@), &mut diagnostics);
        assessments.push(a);
        i = i + 1;
    }
    let result_at_execution = aggregate(&assessments);
    CorrespondenceEvidence {
        id: EvidenceId(own("pending")),
        obligation: ProofObligationId(cat("CORRESPONDENCE:", definition.id.as_str())),
        correspondence_id: definition.id.clone(),
        provider: own(provider_name()),
        provider_version: own(provider_version()),
        claim: definition.claim.clone(),
        authority: definition.authority.clone(),
        does_not_prove: crate::project::clone_strings(&definition.does_not_prove),
        configuration_sha256: crate::evidence::sha256_of(configuration),
        inputs,
        transitions: assessments,
        result_at_execution,
        diagnostics,
        recorded_at_unix_nanos,
    }
}

// ---------------------------------------------------------------------------
// Inputs, assessment and the graph
// ---------------------------------------------------------------------------

/// The candidate inputs of a check: its definition file, its model, and the Rust
/// file of every transition.
pub open spec fn correspondence_candidates(roots: VerificationRoots, d: CorrespondenceDefinition) -> Seq<(Seq<char>, Seq<char>)> {
    seq![
        (identity_of("spec"@, roots.specification_root@, d.source@), d.source@),
        (identity_of("spec"@, roots.specification_root@, joined(roots.specification_root@, d.model@)), joined(roots.specification_root@, d.model@)),
    ] + d.transitions@.map_values(|t: TransitionCorrespondence| (
        identity_of("project"@, roots.project_root@, joined(roots.project_root@, t.rust.file@)),
        joined(roots.project_root@, t.rust.file@),
    ))
}

/// The semantic inputs of a check.
pub fn semantic_inputs(roots: &VerificationRoots, definition: &CorrespondenceDefinition) -> (r: Vec<SemanticInput>)
    ensures
        crate::assembly::input_pairs(r@) == correspondence_candidates(*roots, *definition),
{
    let mut out: Vec<SemanticInput> = Vec::new();
    out.push(SemanticInput { identity: roots.spec_identity(definition.source.as_str()), path: definition.source.clone() });
    let model = crate::roots::join_exec(roots.specification_root.as_str(), definition.model.as_str());
    out.push(SemanticInput { identity: roots.spec_identity(model.as_str()), path: model });
    let ghost cands = correspondence_candidates(*roots, *definition);
    proof {
        assert(crate::assembly::input_pairs(out@) =~= cands.take(2));
    }
    let mut i: usize = 0;
    while i < definition.transitions.len()
        invariant
            i <= definition.transitions@.len(),
            cands == correspondence_candidates(*roots, *definition),
            crate::assembly::input_pairs(out@) == cands.take(i + 2),
        decreases definition.transitions.len() - i,
    {
        let path = crate::roots::join_exec(roots.project_root.as_str(), definition.transitions[i].rust.file.as_str());
        let ghost o0 = out@;
        out.push(SemanticInput { identity: roots.project_identity(path.as_str()), path });
        proof {
            assert(cands[i + 2] == (identity_of("project"@, roots.project_root@, joined(roots.project_root@, definition.transitions@[i as int].rust.file@)),
                joined(roots.project_root@, definition.transitions@[i as int].rust.file@)));
            assert(cands.take(i + 3) =~= cands.take(i + 2).push(cands[i + 2]));
            assert(crate::assembly::input_pairs(out@) =~= crate::assembly::input_pairs(o0).push(cands[i + 2]));
        }
        i = i + 1;
    }
    proof {
        assert(cands.take(definition.transitions@.len() + 2 as int) =~= cands);
    }
    out
}

/// The fingerprints of a check's inputs, one per identity in identity order, from
/// the bytes given for their paths; fails on an input whose bytes are missing.
pub fn current_inputs(roots: &VerificationRoots, definition: &CorrespondenceDefinition, contents: &Vec<(String, Vec<u8>)>) -> (r: Result<Vec<InputFingerprint>, Error>)
    ensures
        exists|u: Seq<SemanticInput>| #[trigger] inputs_of(correspondence_candidates(*roots, *definition), u) && {
            &&& r is Ok <==> forall|j: int| 0 <= j < u.len() ==> content_of(contents@, (#[trigger] u[j]).path@) is Some
            &&& r matches Ok(fps) ==> fingerprinted(u, contents@, fps@)
        },
{
    let semantic = semantic_inputs(roots, definition);
    crate::assembly::fingerprint_semantic_files(&semantic, contents)
}

/// Recorded evidence still applies when it comes from this provider version, for
/// the current definition, computed from exactly the current inputs.
pub open spec fn correspondence_validity(e: CorrespondenceEvidence, current: Seq<InputFingerprint>, configuration: Seq<u8>) -> EvidenceValidity {
    if e.provider_version@ == "1"@ && e.configuration_sha256@ == sha256_hex(configuration)
        && fingerprint_views(e.inputs@) == fingerprint_views(current) {
        EvidenceValidity::Current
    } else {
        EvidenceValidity::Stale
    }
}

/// Whether recorded evidence still applies, given the current fingerprints of the
/// check's inputs and its serialized definition.
pub fn assess(evidence: &CorrespondenceEvidence, current: &Vec<InputFingerprint>, configuration: &[u8]) -> (r: EvidenceValidity)
    ensures
        r == correspondence_validity(*evidence, current@, configuration@),
{
    let config = crate::evidence::sha256_of(configuration);
    if str_eq(evidence.provider_version.as_str(), provider_version()) && str_eq(evidence.configuration_sha256.as_str(), config.as_str())
        && crate::evidence::same_fingerprint_list(&evidence.inputs, current) {
        EvidenceValidity::Current
    } else {
        EvidenceValidity::Stale
    }
}

impl crate::evidence::Recorded for CorrespondenceEvidence {
    open spec fn owner_view(&self) -> Seq<char> {
        self.correspondence_id@
    }

    open spec fn stamp_view(&self) -> (u128, Seq<char>) {
        (self.recorded_at_unix_nanos, self.id.0@)
    }

    fn owner(&self) -> (r: &str) {
        self.correspondence_id.as_str()
    }

    fn stamp(&self) -> (r: (u128, String)) {
        (self.recorded_at_unix_nanos, self.id.0.clone())
    }
}

/// The latest evidence recorded for the definition, with its validity.
pub fn latest_assessment(
    definition: &CorrespondenceDefinition,
    all: Vec<CorrespondenceEvidence>,
    current: &Vec<InputFingerprint>,
    configuration: &[u8],
) -> (r: Option<CorrespondenceAssessment>)
    ensures
        r is None <==> !exists|i: int| 0 <= i < all@.len() && (#[trigger] all@[i]).correspondence_id@ == definition.id@,
        r matches Some(a) ==> exists|i: int| #[trigger] crate::evidence::latest_for(all@, definition.id@, i) && a.evidence == all@[i]
            && a.current_validity == correspondence_validity(a.evidence, current@, configuration@),
{
    match crate::evidence::latest_recorded(all, definition.id.as_str()) {
        None => None,
        Some(evidence) => {
            let current_validity = assess(&evidence, current, configuration);
            Some(CorrespondenceAssessment { evidence, current_validity })
        },
    }
}

/// The obligation of a check.
pub open spec fn obligation_of(d: CorrespondenceDefinition) -> Seq<char> {
    "CORRESPONDENCE:"@ + d.id@
}

/// The evidence edges of one check, in the order of the evidence.
pub open spec fn evidence_keys(d: CorrespondenceDefinition, evidence: Seq<CorrespondenceEvidence>) -> Seq<Seq<char>>
    decreases evidence.len(),
{
    if evidence.len() == 0 {
        Seq::empty()
    } else {
        let k = evidence_keys(d, evidence.drop_last());
        if evidence.last().correspondence_id@ == d.id@ {
            k.push(edge_json_parts("ProofObligation"@, obligation_of(d), LinkKind::EvidenceFor, "Evidence"@, evidence.last().id.0@))
        } else {
            k
        }
    }
}

/// The edges of one check, by their JSON text: its definition file defines its
/// obligation; its model and the Rust file of every transition are relevant to it;
/// its evidence is evidence for it.
pub open spec fn check_edge_keys(roots: VerificationRoots, d: CorrespondenceDefinition, evidence: Seq<CorrespondenceEvidence>) -> Seq<Seq<char>> {
    seq![
        edge_json_parts("Artifact"@, identity_of("spec"@, roots.specification_root@, d.source@), LinkKind::Defines, "ProofObligation"@, obligation_of(d)),
        edge_json_parts("Artifact"@, identity_of("spec"@, roots.specification_root@, joined(roots.specification_root@, d.model@)), LinkKind::RelevantTo,
            "ProofObligation"@, obligation_of(d)),
    ] + d.transitions@.map_values(|t: TransitionCorrespondence| edge_json_parts(
        "Artifact"@,
        identity_of("project"@, roots.project_root@, joined(roots.project_root@, t.rust.file@)),
        LinkKind::RelevantTo,
        "ProofObligation"@,
        obligation_of(d),
    )) + evidence_keys(d, evidence)
}

/// The edges of the first `n` checks, by their JSON text.
pub open spec fn all_edge_keys(roots: VerificationRoots, defs: Seq<CorrespondenceDefinition>, evidence: Seq<CorrespondenceEvidence>, n: int) -> Seq<Seq<char>>
    decreases n,
{
    if n <= 0 {
        Seq::empty()
    } else {
        all_edge_keys(roots, defs, evidence, n - 1) + check_edge_keys(roots, defs[n - 1], evidence)
    }
}

fn check_edges(roots: &VerificationRoots, d: &CorrespondenceDefinition, evidence: &Vec<CorrespondenceEvidence>, out: &mut Vec<GraphEdge>)
    ensures
        crate::project::edge_keys(final(out)@) == crate::project::edge_keys(old(out)@) + check_edge_keys(*roots, *d, evidence@),
{
    let ghost o0 = crate::project::edge_keys(out@);
    let ob = cat("CORRESPONDENCE:", d.id.as_str());
    crate::project::push_edge(out, GraphEdge {
        from: GraphNode::Artifact(ArtifactId(roots.spec_identity(d.source.as_str()))),
        kind: LinkKind::Defines,
        to: GraphNode::ProofObligation(ProofObligationId(ob.clone())),
    });
    let model = crate::roots::join_exec(roots.specification_root.as_str(), d.model.as_str());
    crate::project::push_edge(out, GraphEdge {
        from: GraphNode::Artifact(ArtifactId(roots.spec_identity(model.as_str()))),
        kind: LinkKind::RelevantTo,
        to: GraphNode::ProofObligation(ProofObligationId(ob.clone())),
    });
    let ghost o1 = crate::project::edge_keys(out@);
    let ghost rel = d.transitions@.map_values(|t: TransitionCorrespondence| edge_json_parts(
        "Artifact"@,
        identity_of("project"@, roots.project_root@, joined(roots.project_root@, t.rust.file@)),
        LinkKind::RelevantTo,
        "ProofObligation"@,
        obligation_of(*d),
    ));
    let mut i: usize = 0;
    while i < d.transitions.len()
        invariant
            i <= d.transitions@.len(),
            ob@ == obligation_of(*d),
            rel == d.transitions@.map_values(|t: TransitionCorrespondence| edge_json_parts(
                "Artifact"@,
                identity_of("project"@, roots.project_root@, joined(roots.project_root@, t.rust.file@)),
                LinkKind::RelevantTo,
                "ProofObligation"@,
                obligation_of(*d),
            )),
            crate::project::edge_keys(out@) == o1 + rel.take(i as int),
        decreases d.transitions.len() - i,
    {
        let path = crate::roots::join_exec(roots.project_root.as_str(), d.transitions[i].rust.file.as_str());
        crate::project::push_edge(out, GraphEdge {
            from: GraphNode::Artifact(ArtifactId(roots.project_identity(path.as_str()))),
            kind: LinkKind::RelevantTo,
            to: GraphNode::ProofObligation(ProofObligationId(ob.clone())),
        });
        proof {
            assert(o1 + rel.take(i + 1) =~= (o1 + rel.take(i as int)).push(rel[i as int]));
        }
        i = i + 1;
    }
    let ghost o2 = crate::project::edge_keys(out@);
    let mut j: usize = 0;
    while j < evidence.len()
        invariant
            j <= evidence@.len(),
            ob@ == obligation_of(*d),
            crate::project::edge_keys(out@) == o2 + evidence_keys(*d, evidence@.take(j as int)),
        decreases evidence.len() - j,
    {
        proof {
            assert(evidence@.take(j + 1).drop_last() =~= evidence@.take(j as int));
            assert(evidence@.take(j + 1).last() == evidence@[j as int]);
        }
        if str_eq(evidence[j].correspondence_id.as_str(), d.id.as_str()) {
            crate::project::push_edge(out, GraphEdge {
                from: GraphNode::ProofObligation(ProofObligationId(ob.clone())),
                kind: LinkKind::EvidenceFor,
                to: GraphNode::Evidence(EvidenceId(evidence[j].id.0.clone())),
            });
            proof {
                assert(o2 + evidence_keys(*d, evidence@.take(j + 1)) =~= (o2 + evidence_keys(*d, evidence@.take(j as int))).push(
                    edge_json_parts("ProofObligation"@, obligation_of(*d), LinkKind::EvidenceFor, "Evidence"@, evidence@[j as int].id.0@)));
            }
        }
        j = j + 1;
    }
    proof {
        assert(evidence@.take(evidence@.len() as int) =~= evidence@);
        assert(rel.take(d.transitions@.len() as int) =~= rel);
        assert(crate::project::edge_keys(out@) =~= o0 + check_edge_keys(*roots, *d, evidence@));
    }
}

/// The graph edges of the checks, sorted by their JSON text and each once;
/// `evidence` is all recorded correspondence evidence.
pub fn graph_edges(roots: &VerificationRoots, definitions: &Vec<CorrespondenceDefinition>, evidence: &Vec<CorrespondenceEvidence>) -> (r: Vec<GraphEdge>)
    ensures
        crate::keyed::strictly_sorted(r@),
        forall|k: Seq<char>| #[trigger] crate::keyed::has_key(r@, k) <==> all_edge_keys(*roots, definitions@, evidence@, definitions@.len() as int).contains(k),
{
    let mut out: Vec<GraphEdge> = Vec::new();
    let mut i: usize = 0;
    while i < definitions.len()
        invariant
            i <= definitions@.len(),
            crate::project::edge_keys(out@) == all_edge_keys(*roots, definitions@, evidence@, i as int),
        decreases definitions.len() - i,
    {
        check_edges(roots, &definitions[i], evidence, &mut out);
        i = i + 1;
    }
    let ghost raw = out@;
    let r = crate::project::sort_edges(out);
    proof {
        crate::project::lemma_kept_edge_keys(raw, r@);
    }
    r
}

} // verus!
