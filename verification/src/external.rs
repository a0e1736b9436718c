//! Judging one run of an external fact provider: how the finished process is
//! read, and what the header of its response must hold before its facts are
//! looked at.
use vstd::prelude::*;
use crate::adr::{Error, strs};
use crate::project::{clone_pairs, Artifact, CoverageDiagnostic, FactCoverage, ProjectFact, Provenance, ProvenanceKind};
use crate::sorting::{Ordered, sort_stable, sorted_le};
use crate::roots::{VerificationRoots, components, is_absolute, path_components};
use crate::text::{cat, cat3, chars_of, decimal_string, slice_string, is_empty_str, occurs_at, lemma_lt_irreflexive, lemma_lt_total, lemma_lt_transitive, own, seq_lt, str_eq, str_lt, trim, trim_string};

verus! {

pub open spec fn code_execution() -> Seq<char> {
    "ADRP-EXTP-200"@
}

pub open spec fn code_timeout() -> Seq<char> {
    "ADRP-EXTP-201"@
}

pub open spec fn code_output_limit() -> Seq<char> {
    "ADRP-EXTP-202"@
}

pub open spec fn code_response() -> Seq<char> {
    "ADRP-EXTP-300"@
}

pub open spec fn code_identity() -> Seq<char> {
    "ADRP-EXTP-301"@
}

pub open spec fn code_input() -> Seq<char> {
    "ADRP-EXTP-400"@
}

pub open spec fn response_schema() -> Seq<char> {
    "adrproof-external-provider-response-v1"@
}

/// The diagnostic code of an external provider failure.
pub open spec fn failure_code(e: Error) -> Option<Seq<char>> {
    match e {
        Error::ExternalProviderFailure { code, .. } => Some(code@),
        _ => None,
    }
}

fn failure(code: &str, message: String) -> (e: Error)
    ensures
        failure_code(e) == Some(code@),
        failure_message(e) == Some(message@),
{
    Error::ExternalProviderFailure { code: own(code), message }
}

/// `String::from_utf8`: the bytes as text exactly when they are UTF-8, and then a
/// text whose UTF-8 encoding is those bytes.
#[verifier::external_body]
fn utf8_text(bytes: &[u8]) -> (r: Option<String>)
    ensures
        r is Some <==> vstd::utf8::valid_utf8(bytes@),
        r matches Some(s) ==> vstd::utf8::encode_utf8(s@) == bytes@,
{
    String::from_utf8(bytes.to_vec()).ok()
}

// ---------------------------------------------------------------------------
// The finished process
// ---------------------------------------------------------------------------

/// Why a finished provider process is refused, as its diagnostic code: a timeout
/// first, then output over the limit, then standard error that is not UTF-8, then
/// an unsuccessful exit.
pub open spec fn run_problem(timed_out: bool, stdout_over: bool, stderr_over: bool, stderr: Seq<u8>, success: bool) -> Option<Seq<char>> {
    if timed_out {
        Some(code_timeout())
    } else if stdout_over || stderr_over {
        Some(code_output_limit())
    } else if !vstd::utf8::valid_utf8(stderr) {
        Some(code_response())
    } else if !success {
        Some(code_execution())
    } else {
        None
    }
}

/// The diagnostic that a provider's standard error adds to its response: none when
/// it is blank, else `provider stderr: ` and the trimmed text.
pub open spec fn stderr_diagnostic(stderr: Seq<u8>) -> Option<Seq<char>> {
    let t = trim(vstd::utf8::decode_utf8(stderr));
    if t.len() == 0 {
        None
    } else {
        Some("provider stderr: "@ + t)
    }
}

/// The message of an external provider failure.
pub open spec fn failure_message(e: Error) -> Option<Seq<char>> {
    match e {
        Error::ExternalProviderFailure { message, .. } => Some(message@),
        _ => None,
    }
}

/// `external provider `<id>` `, the start of every provider message.
pub open spec fn about(id: Seq<char>) -> Seq<char> {
    "external provider `"@ + id + "` "@
}

/// The message a refused run is reported with, in the order of `run_problem`.
pub open spec fn run_message(id: Seq<char>, timeout_ms: u64, timed_out: bool, stdout_over: bool, stderr_over: bool, stderr: Seq<u8>, exit_status: Seq<char>) -> Seq<char> {
    if timed_out {
        about(id) + "timed out after "@ + crate::text::decimal(timeout_ms as nat) + " ms"@
    } else if stdout_over || stderr_over {
        about(id) + "exceeded the 8388608-byte output limit"@
    } else if !vstd::utf8::valid_utf8(stderr) {
        about(id) + "wrote non-UTF-8 stderr"@
    } else {
        about(id) + "exited with "@ + exit_status + ": "@ + trim(vstd::utf8::decode_utf8(stderr))
    }
}

fn about_exec(id: &str, rest: &str) -> (r: String)
    ensures
        r@ == about(id@) + rest@,
{
    proof {
        reveal_strlit("external provider `");
        reveal_strlit("` ");
    }
    let a = cat3("external provider `", id, "` ");
    cat(a.as_str(), rest)
}

/// Judges a finished provider process, given the timeout it ran under and how its
/// exit status reads: the error it is refused with, or the diagnostic its standard
/// error adds to the response that it wrote.
pub fn judge_finished_run(
    provider_id: &str,
    timeout_ms: u64,
    timed_out: bool,
    stdout_over: bool,
    stderr_over: bool,
    stderr: &[u8],
    success: bool,
    exit_status: &str,
) -> (r: Result<Option<String>, Error>)
    ensures
        r is Ok <==> run_problem(timed_out, stdout_over, stderr_over, stderr@, success) is None,
        r matches Err(e) ==> failure_code(e) == run_problem(timed_out, stdout_over, stderr_over, stderr@, success)
            && failure_message(e) == Some(run_message(provider_id@, timeout_ms, timed_out, stdout_over, stderr_over, stderr@, exit_status@)),
        r matches Ok(d) ==> match d {
            Some(t) => stderr_diagnostic(stderr@) == Some(t@),
            None => stderr_diagnostic(stderr@) is None,
        },
{
    proof {
        reveal_strlit("ADRP-EXTP-200");
        reveal_strlit("ADRP-EXTP-201");
        reveal_strlit("ADRP-EXTP-202");
        reveal_strlit("ADRP-EXTP-300");
        reveal_strlit("provider stderr: ");
        reveal_strlit(" ms");
        reveal_strlit(": ");
    }
    if timed_out {
        let n = decimal_string(timeout_ms);
        let a = about_exec(provider_id, "timed out after ");
        let m = cat3(a.as_str(), n.as_str(), " ms");
        return Err(failure("ADRP-EXTP-201", m));
    }
    if stdout_over || stderr_over {
        return Err(failure("ADRP-EXTP-202", about_exec(provider_id, "exceeded the 8388608-byte output limit")));
    }
    let text = match utf8_text(stderr) {
        Some(t) => t,
        None => {
            return Err(failure("ADRP-EXTP-300", about_exec(provider_id, "wrote non-UTF-8 stderr")));
        },
    };
    proof {
        vstd::utf8::encode_utf8_decode_utf8(text@);
    }
    let trimmed = trim_string(text.as_str());
    if !success {
        let a = about_exec(provider_id, "exited with ");
        let m = cat3(a.as_str(), exit_status, ": ");
        return Err(failure("ADRP-EXTP-200", cat(m.as_str(), trimmed.as_str())));
    }
    if is_empty_str(trimmed.as_str()) {
        Ok(None)
    } else {
        Ok(Some(cat("provider stderr: ", trimmed.as_str())))
    }
}

// ---------------------------------------------------------------------------
// The response header
// ---------------------------------------------------------------------------

/// A provider as it names itself.
#[derive(Debug)]
pub struct ExternalProviderIdentity {
    pub id: String,
    pub version: String,
}

/// The header of a provider's response: its schema, its identity and the inputs
/// it read, as logical identities.
#[derive(Debug)]
pub struct ResponseHeader {
    pub schema_version: String,
    pub provider: ExternalProviderIdentity,
    pub inputs: Vec<String>,
}

/// Two positions that hold the same text.
pub open spec fn has_duplicate(s: Seq<Seq<char>>) -> bool {
    exists|i: int, j: int| 0 <= i < j < s.len() && #[trigger] s[i] == #[trigger] s[j]
}

/// Why a response header is refused, as its diagnostic code: a foreign schema or an
/// identity other than the configured one first, then an input named twice.
pub open spec fn header_problem(id: Seq<char>, version: Seq<char>, h: ResponseHeader) -> Option<Seq<char>> {
    if h.schema_version@ != response_schema() || h.provider.id@ != id || h.provider.version@ != version {
        Some(code_identity())
    } else if has_duplicate(strs(h.inputs@)) {
        Some(code_input())
    } else {
        None
    }
}

/// Text in increasing order, no two equal.
pub open spec fn strictly_increasing(s: Seq<Seq<char>>) -> bool {
    forall|i: int, j: int| 0 <= i < j < s.len() ==> seq_lt(#[trigger] s[i], #[trigger] s[j])
}

/// Inserts `x` into the increasing `out` unless it is there already; says whether it was.
fn insert_new(out: &mut Vec<String>, x: &String) -> (found: bool)
    requires
        strictly_increasing(strs(old(out)@)),
    ensures
        strictly_increasing(strs(final(out)@)),
        found <==> strs(old(out)@).contains(x@),
        found ==> final(out)@ == old(out)@,
        forall|t: Seq<char>| strs(final(out)@).contains(t) <==> (strs(old(out)@).contains(t) || t == x@),
{
    let ghost s0 = strs(out@);
    let mut p: usize = 0;
    while p < out.len() && str_lt(out[p].as_str(), x.as_str())
        invariant
            p <= out@.len(),
            strs(out@) == s0,
            strictly_increasing(s0),
            forall|q: int| 0 <= q < p ==> seq_lt(#[trigger] s0[q], x@),
        decreases out.len() - p,
    {
        p = p + 1;
    }
    proof {
        assert forall|q: int| p <= q < s0.len() implies !seq_lt(#[trigger] s0[q], x@) by {
            if q > p {
                assert(seq_lt(s0[p as int], s0[q]));
                if seq_lt(s0[q], x@) {
                    lemma_lt_transitive(s0[p as int], s0[q], x@);
                }
            }
        };
        assert forall|q: int| 0 <= q < p implies s0[q] != x@ by {
            lemma_lt_irreflexive(x@);
        };
    }
    if p < out.len() && str_eq(out[p].as_str(), x.as_str()) {
        proof {
            assert(s0[p as int] == x@);
        }
        return true;
    }
    proof {
        if p < s0.len() {
            lemma_lt_total(s0[p as int], x@);
        }
        assert forall|q: int| p <= q < s0.len() implies seq_lt(x@, #[trigger] s0[q]) by {
            lemma_lt_total(s0[q], x@);
            if q > p {
                assert(seq_lt(s0[p as int], s0[q]));
                lemma_lt_transitive(x@, s0[p as int], s0[q]);
            }
        };
        if s0.contains(x@) {
            let q = choose|q: int| 0 <= q < s0.len() && s0[q] == x@;
            if q >= p {
                lemma_lt_irreflexive(x@);
            }
        }
    }
    out.insert(p, x.clone());
    proof {
        let s1 = strs(out@);
        assert(s1 =~= s0.insert(p as int, x@));
        assert forall|a: int, b: int| 0 <= a < b < s1.len() implies seq_lt(#[trigger] s1[a], #[trigger] s1[b]) by {
            if b < p {
            } else if b == p {
            } else if a < p {
                lemma_lt_transitive(s1[a], x@, s1[b]);
            } else if a == p {
            } else {
            }
        };
        assert forall|t: Seq<char>| s1.contains(t) <==> (s0.contains(t) || t == x@) by {
            if s1.contains(t) {
                let q = choose|q: int| 0 <= q < s1.len() && s1[q] == t;
                if q < p {
                    assert(s0[q] == t);
                } else if q > p {
                    assert(s0[q - 1] == t);
                }
            }
            if s0.contains(t) {
                let q = choose|q: int| 0 <= q < s0.len() && s0[q] == t;
                if q < p {
                    assert(s1[q] == t);
                } else {
                    assert(s1[q + 1] == t);
                }
            }
            if t == x@ {
                assert(s1[p as int] == t);
            }
        };
    }
    false
}

/// The message a refused header is reported with.
pub open spec fn header_message(id: Seq<char>, version: Seq<char>, h: ResponseHeader) -> Seq<char> {
    if h.schema_version@ != response_schema() {
        about(id) + "returned unsupported schema `"@ + h.schema_version@ + "`"@
    } else if h.provider.id@ != id || h.provider.version@ != version {
        about(id) + "response identity/version does not match configuration"@
    } else {
        about(id) + "returned duplicate semantic inputs"@
    }
}

/// Checks a response header against the configured provider and gives its inputs
/// in increasing order.
pub fn check_header(id: &str, version: &str, header: &ResponseHeader) -> (r: Result<Vec<String>, Error>)
    ensures
        r is Ok <==> header_problem(id@, version@, *header) is None,
        r matches Err(e) ==> failure_code(e) == header_problem(id@, version@, *header)
            && failure_message(e) == Some(header_message(id@, version@, *header)),
        r matches Ok(v) ==> strictly_increasing(strs(v@))
            && forall|t: Seq<char>| strs(v@).contains(t) <==> strs(header.inputs@).contains(t),
{
    proof {
        reveal_strlit("ADRP-EXTP-301");
        reveal_strlit("ADRP-EXTP-400");
        reveal_strlit("adrproof-external-provider-response-v1");
    }
    proof {
        reveal_strlit("`");
    }
    if !str_eq(header.schema_version.as_str(), "adrproof-external-provider-response-v1") {
        let a = about_exec(id, "returned unsupported schema `");
        return Err(failure("ADRP-EXTP-301", cat3(a.as_str(), header.schema_version.as_str(), "`")));
    }
    if !str_eq(header.provider.id.as_str(), id) || !str_eq(header.provider.version.as_str(), version) {
        return Err(failure("ADRP-EXTP-301", about_exec(id, "response identity/version does not match configuration")));
    }
    let ghost ins = strs(header.inputs@);
    let mut out: Vec<String> = Vec::new();
    let mut i: usize = 0;
    while i < header.inputs.len()
        invariant
            i <= header.inputs@.len(),
            ins == strs(header.inputs@),
            header.schema_version@ == response_schema(),
            header.provider.id@ == id@,
            header.provider.version@ == version@,
            strictly_increasing(strs(out@)),
            forall|t: Seq<char>| strs(out@).contains(t) <==> ins.take(i as int).contains(t),
            !has_duplicate(ins.take(i as int)),
        decreases header.inputs.len() - i,
    {
        let ghost before = ins.take(i as int);
        let found = insert_new(&mut out, &header.inputs[i]);
        proof {
            assert(ins.take(i + 1) =~= before.push(ins[i as int]));
        }
        if found {
            proof {
                assert(header.inputs@[i as int]@ == ins[i as int]);
                assert(before.contains(ins[i as int]));
                let q = choose|q: int| 0 <= q < before.len() && before[q] == ins[i as int];
                assert(ins[q] == ins[i as int]);
                assert(has_duplicate(ins));
            }
            return Err(failure("ADRP-EXTP-400", about_exec(id, "returned duplicate semantic inputs")));
        }
        proof {
            let now = ins.take(i + 1);
            assert forall|t: Seq<char>| strs(out@).contains(t) <==> now.contains(t) by {
                if before.contains(t) {
                    let q = choose|q: int| 0 <= q < before.len() && before[q] == t;
                    assert(now[q] == t);
                }
                if now.contains(t) {
                    let q = choose|q: int| 0 <= q < now.len() && now[q] == t;
                    if q < i {
                        assert(before[q] == t);
                    }
                }
                if t == ins[i as int] {
                    assert(now[i as int] == t);
                }
            };
            if has_duplicate(now) {
                let (a, b) = choose|a: int, b: int| 0 <= a < b < now.len() && #[trigger] now[a] == #[trigger] now[b];
                if b < i {
                    assert(before[a] == before[b]);
                } else {
                    assert(before[a] == ins[i as int]);
                }
            }
        }
        i = i + 1;
    }
    proof {
        assert(ins.take(ins.len() as int) =~= ins);
    }
    Ok(out)
}


// ---------------------------------------------------------------------------
// The response body
// ---------------------------------------------------------------------------

pub open spec fn code_authority() -> Seq<char> {
    "ADRP-EXTP-500"@
}

pub open spec fn code_collision() -> Seq<char> {
    "ADRP-EXTP-600"@
}

/// The extractor a provider's provenance is stamped with: `external:<id>@<version>`.
pub open spec fn extractor_of(id: Seq<char>, version: Seq<char>) -> Seq<char> {
    "external:"@ + id + "@"@ + version
}

/// Provenance a provider may claim: extracted or authoritative, from a declared
/// input, with a span (if any) in that same input.
pub open spec fn provenance_ok(p: Provenance, inputs: Seq<Seq<char>>) -> bool {
    &&& (p.kind is DeterministicallyExtracted || p.kind is Authoritative)
    &&& inputs.contains(p.source@)
    &&& (p.span matches Some(sp) ==> sp.filename@ == p.source@)
}

/// The provider's extractor, followed by the one it gave when that is not blank.
pub open spec fn stamped_extractor(given: Option<String>, ext: Seq<char>) -> Seq<char> {
    match given {
        Some(v) => if trim(v@).len() > 0 { ext + "; "@ + v@ } else { ext },
        None => ext,
    }
}

/// `q` is `p` stamped with the extractor `ext`.
pub open spec fn stamped(p: Provenance, q: Provenance, ext: Seq<char>) -> bool {
    &&& q.kind == p.kind
    &&& q.source == p.source
    &&& q.span == p.span
    &&& q.extractor matches Some(e) && e@ == stamped_extractor(p.extractor, ext)
}

pub open spec fn ascii_letter(c: char) -> bool {
    ('a' <= c && c <= 'z') || ('A' <= c && c <= 'Z')
}

pub open spec fn ascii_digit(c: char) -> bool {
    '0' <= c && c <= '9'
}

/// An ADRLogic relation name: a letter or `_`, then letters, digits and `_`.
pub open spec fn valid_relation(s: Seq<char>) -> bool {
    &&& s.len() > 0
    &&& (s[0] == '_' || ascii_letter(s[0]))
    &&& forall|k: int| 1 <= k < s.len() ==> (#[trigger] s[k] == '_' || ascii_letter(s[k]) || ascii_digit(s[k]))
}

pub open spec fn artifact_ok(a: Artifact, inputs: Seq<Seq<char>>) -> bool {
    provenance_ok(a.provenance, inputs) && trim(a.id.0@).len() > 0 && trim(a.kind@).len() > 0
}

pub open spec fn has_artifact(arts: Seq<Artifact>, id: Seq<char>) -> bool {
    exists|k: int| 0 <= k < arts.len() && (#[trigger] arts[k]).id.0@ == id
}

/// A provider's fact: its ID under the provider's, a relation name, arguments,
/// positive, with acceptable provenance whose source is one of the artifacts.
pub open spec fn fact_ok(f: ProjectFact, id: Seq<char>, inputs: Seq<Seq<char>>, arts: Seq<Artifact>) -> bool {
    &&& occurs_at(f.id.0@, 0, id + ":"@)
    &&& valid_relation(f.relation@)
    &&& f.arguments@.len() > 0
    &&& f.value
    &&& provenance_ok(f.provenance, inputs)
    &&& has_artifact(arts, f.provenance.source@)
}

/// A coverage claim together with the text it is ordered by.
#[derive(Debug)]
pub struct KeyedCoverage {
    pub key: String,
    pub coverage: FactCoverage,
}

impl Ordered for KeyedCoverage {
    open spec fn le(&self, other: &Self) -> bool {
        seq_lt(self.key@, other.key@) || self.key@ == other.key@
    }

    proof fn lemma_le_total(a: &Self, b: &Self) {
        lemma_lt_total(a.key@, b.key@);
    }

    proof fn lemma_le_transitive(a: &Self, b: &Self, c: &Self) {
        if seq_lt(a.key@, b.key@) && seq_lt(b.key@, c.key@) {
            lemma_lt_transitive(a.key@, b.key@, c.key@);
        }
    }

    fn le_exec(&self, other: &Self) -> (r: bool) {
        str_lt(self.key.as_str(), other.key.as_str()) || str_eq(self.key.as_str(), other.key.as_str())
    }
}

/// A coverage claim of the provider itself, on a relation name, with a statement,
/// whose diagnostics carry acceptable provenance.
pub open spec fn coverage_ok(c: FactCoverage, id: Seq<char>, inputs: Seq<Seq<char>>) -> bool {
    &&& c.provider@ == id
    &&& valid_relation(c.relation@)
    &&& trim(c.statement@).len() > 0
    &&& forall|k: int| 0 <= k < c.diagnostics@.len() ==> provenance_ok(#[trigger] c.diagnostics@[k].provenance, inputs)
}

pub open spec fn artifact_ids_distinct(s: Seq<Artifact>) -> bool {
    forall|i: int, j: int| 0 <= i < j < s.len() ==> (#[trigger] s[i]).id.0@ != (#[trigger] s[j]).id.0@
}

pub open spec fn fact_ids_distinct(s: Seq<ProjectFact>) -> bool {
    forall|i: int, j: int| 0 <= i < j < s.len() ==> (#[trigger] s[i]).id.0@ != (#[trigger] s[j]).id.0@
}

/// Why a response body is refused, as its diagnostic code: an artifact or fact ID
/// used twice first, then an artifact, fact or coverage claim the provider may not
/// make.
pub open spec fn body_problem(
    id: Seq<char>,
    inputs: Seq<Seq<char>>,
    arts: Seq<Artifact>,
    facts: Seq<ProjectFact>,
    covs: Seq<KeyedCoverage>,
) -> Option<Seq<char>> {
    if !artifact_ids_distinct(arts) || !fact_ids_distinct(facts) {
        Some(code_collision())
    } else if (exists|i: int| 0 <= i < arts.len() && !artifact_ok(#[trigger] arts[i], inputs))
        || (exists|i: int| 0 <= i < facts.len() && !fact_ok(#[trigger] facts[i], id, inputs, arts))
        || (exists|i: int| 0 <= i < covs.len() && !coverage_ok((#[trigger] covs[i]).coverage, id, inputs)) {
        Some(code_authority())
    } else {
        None
    }
}

fn provenance_check(p: &Provenance, inputs: &Vec<String>) -> (r: bool)
    ensures
        r == provenance_ok(*p, strs(inputs@)),
{
    let kind_ok = match p.kind {
        ProvenanceKind::DeterministicallyExtracted => true,
        ProvenanceKind::Authoritative => true,
        _ => false,
    };
    let mut found = false;
    let mut i: usize = 0;
    while i < inputs.len()
        invariant
            i <= inputs@.len(),
            found <==> exists|q: int| 0 <= q < i && strs(inputs@)[q] == p.source@,
        decreases inputs.len() - i,
    {
        if str_eq(inputs[i].as_str(), p.source.as_str()) {
            found = true;
        }
        proof {
            assert(strs(inputs@)[i as int] == inputs@[i as int]@);
        }
        i = i + 1;
    }
    let span_ok = match &p.span {
        Some(sp) => str_eq(sp.filename.as_str(), p.source.as_str()),
        None => true,
    };
    kind_ok && found && span_ok
}

fn stamp(p: &Provenance, ext: &str) -> (q: Provenance)
    ensures
        stamped(*p, q, ext@),
{
    proof {
        reveal_strlit("; ");
    }
    let e = match &p.extractor {
        Some(v) => {
            let t = trim_string(v.as_str());
            if is_empty_str(t.as_str()) {
                own(ext)
            } else {
                cat3(ext, "; ", v.as_str())
            }
        },
        None => own(ext),
    };
    let mut q = p.clone();
    q.extractor = Some(e);
    q
}

fn is_letter(c: char) -> (r: bool)
    ensures
        r == ascii_letter(c),
{
    ('a' <= c && c <= 'z') || ('A' <= c && c <= 'Z')
}

fn relation_check(s: &str) -> (r: bool)
    ensures
        r == valid_relation(s@),
{
    let c = chars_of(s);
    if c.len() == 0 || !(c[0] == '_' || is_letter(c[0])) {
        return false;
    }
    let mut k: usize = 1;
    while k < c.len()
        invariant
            1 <= k <= c@.len(),
            c@ == s@,
            forall|q: int| 1 <= q < k ==> (#[trigger] c@[q] == '_' || ascii_letter(c@[q]) || ascii_digit(c@[q])),
        decreases c.len() - k,
    {
        let x = c[k];
        if !(x == '_' || is_letter(x) || ('0' <= x && x <= '9')) {
            return false;
        }
        k = k + 1;
    }
    true
}

fn artifacts_distinct(s: &Vec<Artifact>) -> (r: bool)
    ensures
        r == artifact_ids_distinct(s@),
{
    let mut i: usize = 0;
    while i < s.len()
        invariant
            i <= s@.len(),
            forall|a: int, b: int| 0 <= a < b < s@.len() && a < i ==> (#[trigger] s@[a]).id.0@ != (#[trigger] s@[b]).id.0@,
        decreases s.len() - i,
    {
        let mut j: usize = i + 1;
        while j < s.len()
            invariant
                i < s@.len(),
                i + 1 <= j <= s@.len(),
                forall|a: int, b: int| 0 <= a < b < s@.len() && a < i ==> (#[trigger] s@[a]).id.0@ != (#[trigger] s@[b]).id.0@,
                forall|b: int| i < b < j ==> s@[i as int].id.0@ != (#[trigger] s@[b]).id.0@,
            decreases s.len() - j,
        {
            if str_eq(s[i].id.0.as_str(), s[j].id.0.as_str()) {
                return false;
            }
            j = j + 1;
        }
        i = i + 1;
    }
    true
}

fn facts_distinct(s: &Vec<ProjectFact>) -> (r: bool)
    ensures
        r == fact_ids_distinct(s@),
{
    let mut i: usize = 0;
    while i < s.len()
        invariant
            i <= s@.len(),
            forall|a: int, b: int| 0 <= a < b < s@.len() && a < i ==> (#[trigger] s@[a]).id.0@ != (#[trigger] s@[b]).id.0@,
        decreases s.len() - i,
    {
        let mut j: usize = i + 1;
        while j < s.len()
            invariant
                i < s@.len(),
                i + 1 <= j <= s@.len(),
                forall|a: int, b: int| 0 <= a < b < s@.len() && a < i ==> (#[trigger] s@[a]).id.0@ != (#[trigger] s@[b]).id.0@,
                forall|b: int| i < b < j ==> s@[i as int].id.0@ != (#[trigger] s@[b]).id.0@,
            decreases s.len() - j,
        {
            if str_eq(s[i].id.0.as_str(), s[j].id.0.as_str()) {
                return false;
            }
            j = j + 1;
        }
        i = i + 1;
    }
    true
}


fn blank_text(s: &str) -> (r: bool)
    ensures
        r == (trim(s@).len() == 0),
{
    let t = trim_string(s);
    is_empty_str(t.as_str())
}

fn artifact_check(a: &Artifact, inputs: &Vec<String>) -> (r: bool)
    ensures
        r == artifact_ok(*a, strs(inputs@)),
{
    provenance_check(&a.provenance, inputs) && !blank_text(a.id.0.as_str()) && !blank_text(a.kind.as_str())
}

fn artifact_named(arts: &Vec<Artifact>, id: &str) -> (r: bool)
    ensures
        r == has_artifact(arts@, id@),
{
    let mut k: usize = 0;
    while k < arts.len()
        invariant
            k <= arts@.len(),
            forall|q: int| 0 <= q < k ==> (#[trigger] arts@[q]).id.0@ != id@,
        decreases arts.len() - k,
    {
        if str_eq(arts[k].id.0.as_str(), id) {
            return true;
        }
        k = k + 1;
    }
    false
}

fn fact_check(f: &ProjectFact, id: &str, inputs: &Vec<String>, arts: &Vec<Artifact>) -> (r: bool)
    ensures
        r == fact_ok(*f, id@, strs(inputs@), arts@),
{
    proof {
        reveal_strlit(":");
    }
    let prefix = cat(id, ":");
    let c = chars_of(f.id.0.as_str());
    let starts = crate::text::occurs_at_exec(&c, 0, prefix.as_str());
    starts && relation_check(f.relation.as_str()) && f.arguments.len() > 0 && f.value
        && provenance_check(&f.provenance, inputs) && artifact_named(arts, f.provenance.source.as_str())
}

fn coverage_check(c: &FactCoverage, id: &str, inputs: &Vec<String>) -> (r: bool)
    ensures
        r == coverage_ok(*c, id@, strs(inputs@)),
{
    if !str_eq(c.provider.as_str(), id) || !relation_check(c.relation.as_str()) || blank_text(c.statement.as_str()) {
        return false;
    }
    let mut k: usize = 0;
    while k < c.diagnostics.len()
        invariant
            k <= c.diagnostics@.len(),
            forall|q: int| 0 <= q < k ==> provenance_ok(#[trigger] c.diagnostics@[q].provenance, strs(inputs@)),
        decreases c.diagnostics.len() - k,
    {
        if !provenance_check(&c.diagnostics[k].provenance, inputs) {
            return false;
        }
        k = k + 1;
    }
    true
}

/// The message for provenance that `provenance_check` refuses.
fn provenance_message(p: &Provenance, inputs: &Vec<String>, provider: &str) -> String {
    let kind_ok = match p.kind {
        ProvenanceKind::DeterministicallyExtracted => true,
        ProvenanceKind::Authoritative => true,
        _ => false,
    };
    if !kind_ok {
        return about_exec(provider, "may emit only deterministically_extracted or authoritative provenance");
    }
    if !crate::keyed::contains_str(inputs, p.source.as_str()) {
        let a = about_exec(provider, "provenance source `");
        return cat3(a.as_str(), p.source.as_str(), "` is not a declared input");
    }
    about_exec(provider, "span filename must equal its provenance source")
}

/// The message for an artifact that `artifact_check` refuses.
fn artifact_message(a: &Artifact, inputs: &Vec<String>, provider: &str) -> String {
    if !provenance_check(&a.provenance, inputs) {
        return provenance_message(&a.provenance, inputs, provider);
    }
    about_exec(provider, "returned an artifact with an empty id or kind")
}

/// The message for a fact that `fact_check` refuses.
fn fact_message(f: &ProjectFact, provider: &str, inputs: &Vec<String>) -> String {
    let prefix = cat(provider, ":");
    let c = chars_of(f.id.0.as_str());
    if !crate::text::occurs_at_exec(&c, 0, prefix.as_str()) {
        let a = about_exec(provider, "fact id `");
        let b = cat3(a.as_str(), f.id.0.as_str(), "` must start with `");
        return cat3(b.as_str(), provider, ":`");
    }
    if !relation_check(f.relation.as_str()) || f.arguments.len() == 0 || !f.value {
        return about_exec(provider, "facts must be positive, have arguments, and use ADRLogic relation names");
    }
    if !provenance_check(&f.provenance, inputs) {
        return provenance_message(&f.provenance, inputs, provider);
    }
    let a = about_exec(provider, "must return a source artifact `");
    let b = cat3(a.as_str(), f.provenance.source.as_str(), "` for fact `");
    cat3(b.as_str(), f.id.0.as_str(), "`")
}

/// The message for coverage that `coverage_check` refuses.
fn coverage_message(c: &FactCoverage, provider: &str, inputs: &Vec<String>) -> String {
    if !str_eq(c.provider.as_str(), provider) || !relation_check(c.relation.as_str()) {
        return about_exec(provider, "returned invalid coverage ownership/relation");
    }
    if blank_text(c.statement.as_str()) {
        return about_exec(provider, "returned coverage without a statement");
    }
    let mut k: usize = 0;
    while k < c.diagnostics.len()
        decreases c.diagnostics.len() - k,
    {
        if !provenance_check(&c.diagnostics[k].provenance, inputs) {
            return provenance_message(&c.diagnostics[k].provenance, inputs, provider);
        }
        k = k + 1;
    }
    about_exec(provider, "returned invalid coverage")
}

/// The message for identifiers used twice, naming the first repeated one.
fn duplicate_message(ids: &Vec<String>, provider: &str, kind: &str) -> String {
    let mut i: usize = 0;
    while i < ids.len()
        decreases ids.len() - i,
    {
        let mut j: usize = i + 1;
        while j < ids.len()
            invariant
                i < ids@.len(),
            decreases ids.len() - j,
        {
            if str_eq(ids[i].as_str(), ids[j].as_str()) {
                let a = about_exec(provider, "returned duplicate ");
                let b = cat3(a.as_str(), kind, " id `");
                return cat3(b.as_str(), ids[i].as_str(), "`");
            }
            j = j + 1;
        }
        i = i + 1;
    }
    about_exec(provider, "returned duplicate ids")
}

/// `st` holds the artifacts of `a`, in order, with their provenance stamped.
pub open spec fn artifacts_stamped(a: Seq<Artifact>, st: Seq<Artifact>, ext: Seq<char>) -> bool {
    &&& st.len() == a.len()
    &&& forall|i: int| 0 <= i < a.len() ==> {
        &&& (#[trigger] st[i]).id == a[i].id
        &&& st[i].kind == a[i].kind
        &&& stamped(a[i].provenance, st[i].provenance, ext)
    }
}

/// `st` holds the facts of `a`, in order, with their provenance stamped.
pub open spec fn facts_stamped(a: Seq<ProjectFact>, st: Seq<ProjectFact>, ext: Seq<char>) -> bool {
    &&& st.len() == a.len()
    &&& forall|i: int| 0 <= i < a.len() ==> {
        &&& (#[trigger] st[i]).id == a[i].id
        &&& st[i].relation == a[i].relation
        &&& st[i].arguments@ == a[i].arguments@
        &&& st[i].value == a[i].value
        &&& st[i].attributes@ == a[i].attributes@
        &&& stamped(a[i].provenance, st[i].provenance, ext)
    }
}

/// `d` is the coverage claim `c` with the provenance of each diagnostic stamped.
pub open spec fn coverage_stamped(c: KeyedCoverage, d: KeyedCoverage, ext: Seq<char>) -> bool {
    &&& d.key == c.key
    &&& d.coverage.relation == c.coverage.relation
    &&& d.coverage.provider == c.coverage.provider
    &&& d.coverage.world == c.coverage.world
    &&& d.coverage.scope == c.coverage.scope
    &&& d.coverage.qualifiers@ == c.coverage.qualifiers@
    &&& d.coverage.statement == c.coverage.statement
    &&& d.coverage.diagnostics@.len() == c.coverage.diagnostics@.len()
    &&& forall|k: int| 0 <= k < c.coverage.diagnostics@.len() ==> {
        &&& (#[trigger] d.coverage.diagnostics@[k]).reason == c.coverage.diagnostics@[k].reason
        &&& stamped(c.coverage.diagnostics@[k].provenance, d.coverage.diagnostics@[k].provenance, ext)
    }
}

pub open spec fn coverages_stamped(a: Seq<KeyedCoverage>, st: Seq<KeyedCoverage>, ext: Seq<char>) -> bool {
    &&& st.len() == a.len()
    &&& forall|i: int| 0 <= i < a.len() ==> coverage_stamped(a[i], #[trigger] st[i], ext)
}

fn stamp_artifact(a: &Artifact, ext: &str) -> (r: Artifact)
    ensures
        r.id == a.id,
        r.kind == a.kind,
        stamped(a.provenance, r.provenance, ext@),
{
    Artifact { id: a.id.clone(), kind: a.kind.clone(), provenance: stamp(&a.provenance, ext) }
}

fn stamp_fact(f: &ProjectFact, ext: &str) -> (r: ProjectFact)
    ensures
        r.id == f.id,
        r.relation == f.relation,
        r.arguments@ == f.arguments@,
        r.value == f.value,
        r.attributes@ == f.attributes@,
        stamped(f.provenance, r.provenance, ext@),
{
    let mut r = f.clone();
    r.provenance = stamp(&f.provenance, ext);
    r
}

fn stamp_coverage(c: &KeyedCoverage, ext: &str) -> (r: KeyedCoverage)
    ensures
        coverage_stamped(*c, r, ext@),
{
    let mut diagnostics: Vec<CoverageDiagnostic> = Vec::new();
    let mut k: usize = 0;
    while k < c.coverage.diagnostics.len()
        invariant
            k <= c.coverage.diagnostics@.len(),
            diagnostics@.len() == k,
            forall|q: int| 0 <= q < k ==> {
                &&& (#[trigger] diagnostics@[q]).reason == c.coverage.diagnostics@[q].reason
                &&& stamped(c.coverage.diagnostics@[q].provenance, diagnostics@[q].provenance, ext@)
            },
        decreases c.coverage.diagnostics.len() - k,
    {
        let d = &c.coverage.diagnostics[k];
        diagnostics.push(CoverageDiagnostic { reason: d.reason.clone(), provenance: stamp(&d.provenance, ext) });
        k = k + 1;
    }
    KeyedCoverage {
        key: c.key.clone(),
        coverage: FactCoverage {
            relation: c.coverage.relation.clone(),
            provider: c.coverage.provider.clone(),
            world: c.coverage.world,
            scope: c.coverage.scope.clone(),
            qualifiers: clone_pairs(&c.coverage.qualifiers),
            statement: c.coverage.statement.clone(),
            diagnostics,
        },
    }
}

/// A response body that passed its checks, in the order it is recorded.
#[derive(Debug)]
pub struct CheckedBody {
    pub artifacts: Vec<Artifact>,
    pub facts: Vec<ProjectFact>,
    pub coverage: Vec<KeyedCoverage>,
    pub diagnostics: Vec<String>,
}

/// Checks the body of a provider's response against the inputs it declared: IDs
/// used once, and only artifacts, facts and coverage the provider may claim. What
/// passes comes back stamped with the provider's extractor, artifacts and facts in
/// order of ID, coverage in order of its key, diagnostics in order without
/// repeats.
pub fn check_body(
    id: &str,
    version: &str,
    inputs: &Vec<String>,
    artifacts: &Vec<Artifact>,
    facts: &Vec<ProjectFact>,
    coverage: &Vec<KeyedCoverage>,
    diagnostics: &Vec<String>,
) -> (r: Result<CheckedBody, Error>)
    ensures
        r is Ok <==> body_problem(id@, strs(inputs@), artifacts@, facts@, coverage@) is None,
        r matches Err(e) ==> failure_code(e) == body_problem(id@, strs(inputs@), artifacts@, facts@, coverage@),
        r matches Ok(b) ==> {
            &&& sorted_le(b.artifacts@)
            &&& exists|st: Seq<Artifact>| #[trigger] artifacts_stamped(artifacts@, st, extractor_of(id@, version@))
                && b.artifacts@.to_multiset() == st.to_multiset()
            &&& sorted_le(b.facts@)
            &&& exists|st: Seq<ProjectFact>| #[trigger] facts_stamped(facts@, st, extractor_of(id@, version@))
                && b.facts@.to_multiset() == st.to_multiset()
            &&& sorted_le(b.coverage@)
            &&& exists|st: Seq<KeyedCoverage>| #[trigger] coverages_stamped(coverage@, st, extractor_of(id@, version@))
                && b.coverage@.to_multiset() == st.to_multiset()
            &&& strictly_increasing(strs(b.diagnostics@))
            &&& forall|t: Seq<char>| strs(b.diagnostics@).contains(t) <==> strs(diagnostics@).contains(t)
        },
{
    proof {
        reveal_strlit("ADRP-EXTP-500");
        reveal_strlit("ADRP-EXTP-600");
        reveal_strlit("external:");
        reveal_strlit("@");
    }
    if !artifacts_distinct(artifacts) {
        let mut ids: Vec<String> = Vec::new();
        let mut k: usize = 0;
        while k < artifacts.len()
            decreases artifacts.len() - k,
        {
            ids.push(artifacts[k].id.0.clone());
            k = k + 1;
        }
        return Err(failure("ADRP-EXTP-600", duplicate_message(&ids, id, "artifact")));
    }
    if !facts_distinct(facts) {
        let mut ids: Vec<String> = Vec::new();
        let mut k: usize = 0;
        while k < facts.len()
            decreases facts.len() - k,
        {
            ids.push(facts[k].id.0.clone());
            k = k + 1;
        }
        return Err(failure("ADRP-EXTP-600", duplicate_message(&ids, id, "fact")));
    }
    let ext = cat(cat3("external:", id, "@").as_str(), version);
    let ghost ins = strs(inputs@);
    let mut arts: Vec<Artifact> = Vec::new();
    let mut i: usize = 0;
    while i < artifacts.len()
        invariant
            i <= artifacts@.len(),
            ins == strs(inputs@),
            ext@ == extractor_of(id@, version@),
            artifact_ids_distinct(artifacts@),
            fact_ids_distinct(facts@),
            arts@.len() == i,
            forall|q: int| 0 <= q < i ==> artifact_ok(#[trigger] artifacts@[q], ins),
            forall|q: int| 0 <= q < i ==> {
                &&& (#[trigger] arts@[q]).id == artifacts@[q].id
                &&& arts@[q].kind == artifacts@[q].kind
                &&& stamped(artifacts@[q].provenance, arts@[q].provenance, ext@)
            },
        decreases artifacts.len() - i,
    {
        if !artifact_check(&artifacts[i], inputs) {
            return Err(failure("ADRP-EXTP-500", artifact_message(&artifacts[i], inputs, id)));
        }
        arts.push(stamp_artifact(&artifacts[i], ext.as_str()));
        i = i + 1;
    }
    let mut fs: Vec<ProjectFact> = Vec::new();
    let mut i: usize = 0;
    while i < facts.len()
        invariant
            i <= facts@.len(),
            ins == strs(inputs@),
            ext@ == extractor_of(id@, version@),
            artifact_ids_distinct(artifacts@),
            fact_ids_distinct(facts@),
            fs@.len() == i,
            forall|q: int| 0 <= q < artifacts@.len() ==> artifact_ok(#[trigger] artifacts@[q], ins),
            forall|q: int| 0 <= q < i ==> fact_ok(#[trigger] facts@[q], id@, ins, artifacts@),
            forall|q: int| 0 <= q < i ==> {
                &&& (#[trigger] fs@[q]).id == facts@[q].id
                &&& fs@[q].relation == facts@[q].relation
                &&& fs@[q].arguments@ == facts@[q].arguments@
                &&& fs@[q].value == facts@[q].value
                &&& fs@[q].attributes@ == facts@[q].attributes@
                &&& stamped(facts@[q].provenance, fs@[q].provenance, ext@)
            },
        decreases facts.len() - i,
    {
        if !fact_check(&facts[i], id, inputs, artifacts) {
            return Err(failure("ADRP-EXTP-500", fact_message(&facts[i], id, inputs)));
        }
        fs.push(stamp_fact(&facts[i], ext.as_str()));
        i = i + 1;
    }
    let mut cs: Vec<KeyedCoverage> = Vec::new();
    let mut i: usize = 0;
    while i < coverage.len()
        invariant
            i <= coverage@.len(),
            ins == strs(inputs@),
            ext@ == extractor_of(id@, version@),
            artifact_ids_distinct(artifacts@),
            fact_ids_distinct(facts@),
            cs@.len() == i,
            forall|q: int| 0 <= q < artifacts@.len() ==> artifact_ok(#[trigger] artifacts@[q], ins),
            forall|q: int| 0 <= q < facts@.len() ==> fact_ok(#[trigger] facts@[q], id@, ins, artifacts@),
            forall|q: int| 0 <= q < i ==> coverage_ok((#[trigger] coverage@[q]).coverage, id@, ins),
            forall|q: int| 0 <= q < i ==> coverage_stamped(coverage@[q], #[trigger] cs@[q], ext@),
        decreases coverage.len() - i,
    {
        if !coverage_check(&coverage[i].coverage, id, inputs) {
            return Err(failure("ADRP-EXTP-500", coverage_message(&coverage[i].coverage, id, inputs)));
        }
        cs.push(stamp_coverage(&coverage[i], ext.as_str()));
        i = i + 1;
    }
    let ghost arts0 = arts@;
    let ghost fs0 = fs@;
    let ghost cs0 = cs@;
    proof {
        assert(artifacts_stamped(artifacts@, arts0, ext@));
        assert(facts_stamped(facts@, fs0, ext@));
        assert(coverages_stamped(coverage@, cs0, ext@));
    }
    let sorted_arts = sort_stable(arts);
    let sorted_facts = sort_stable(fs);
    let sorted_cov = sort_stable(cs);
    let mut diags: Vec<String> = Vec::new();
    let mut i: usize = 0;
    while i < diagnostics.len()
        invariant
            i <= diagnostics@.len(),
            strictly_increasing(strs(diags@)),
            forall|t: Seq<char>| strs(diags@).contains(t) <==> strs(diagnostics@).take(i as int).contains(t),
        decreases diagnostics.len() - i,
    {
        let ghost before = strs(diagnostics@).take(i as int);
        let _found = insert_new(&mut diags, &diagnostics[i]);
        proof {
            let now = strs(diagnostics@).take(i + 1);
            assert(now =~= before.push(diagnostics@[i as int]@));
            assert forall|t: Seq<char>| strs(diags@).contains(t) <==> now.contains(t) by {
                if before.contains(t) {
                    let q = choose|q: int| 0 <= q < before.len() && before[q] == t;
                    assert(now[q] == t);
                }
                if now.contains(t) {
                    let q = choose|q: int| 0 <= q < now.len() && now[q] == t;
                    if q < i {
                        assert(before[q] == t);
                    }
                }
                if t == diagnostics@[i as int]@ {
                    assert(now[i as int] == t);
                }
            };
        }
        i = i + 1;
    }
    proof {
        assert(strs(diagnostics@).take(diagnostics@.len() as int) =~= strs(diagnostics@));
    }
    Ok(CheckedBody { artifacts: sorted_arts, facts: sorted_facts, coverage: sorted_cov, diagnostics: diags })
}


// ---------------------------------------------------------------------------
// Declared inputs
// ---------------------------------------------------------------------------

/// A logical path as a provider may declare it: not empty, no `\`, relative, not
/// starting with `.`, and no `..` among its components.
pub open spec fn normalized_relative(rel: Seq<char>) -> bool {
    &&& rel.len() > 0
    &&& !rel.contains('\\')
    &&& !is_absolute(rel)
    &&& !(rel == "."@ || (rel.len() >= 2 && rel[0] == '.' && rel[1] == '/'))
    &&& !components(rel).contains(".."@)
}

/// The root and the path below it that a declared input names, when it is
/// `project:` or `spec:` and a normalized logical path.
pub open spec fn declared_location(roots: VerificationRoots, identity: Seq<char>) -> Option<(Seq<char>, Seq<char>)> {
    if occurs_at(identity, 0, "project:"@) && normalized_relative(identity.subrange(8, identity.len() as int)) {
        Some((roots.project_root@, identity.subrange(8, identity.len() as int)))
    } else if !occurs_at(identity, 0, "project:"@) && occurs_at(identity, 0, "spec:"@)
        && normalized_relative(identity.subrange(5, identity.len() as int)) {
        Some((roots.specification_root@, identity.subrange(5, identity.len() as int)))
    } else {
        None
    }
}

fn relative_check(rel: &str) -> (r: bool)
    ensures
        r == normalized_relative(rel@),
{
    proof {
        reveal_strlit(".");
        reveal_strlit("..");
    }
    let c = chars_of(rel);
    if c.len() == 0 || c[0] == '/' {
        return false;
    }
    if c[0] == '.' && (c.len() == 1 || c[1] == '/') {
        proof {
            if c.len() == 1 {
                assert(rel@ =~= "."@);
            }
        }
        return false;
    }
    let mut k: usize = 0;
    while k < c.len()
        invariant
            k <= c@.len(),
            c@ == rel@,
            forall|q: int| 0 <= q < k ==> c@[q] != '\\',
        decreases c.len() - k,
    {
        if c[k] == '\\' {
            proof {
                assert(rel@[k as int] == '\\');
            }
            return false;
        }
        k = k + 1;
    }
    let parts = path_components(rel);
    let mut j: usize = 0;
    while j < parts.len()
        invariant
            j <= parts@.len(),
            strs(parts@) == components(rel@),
            forall|q: int| 0 <= q < j ==> strs(parts@)[q] != ".."@,
        decreases parts.len() - j,
    {
        if str_eq(parts[j].as_str(), "..") {
            proof {
                assert(strs(parts@)[j as int] == ".."@);
            }
            return false;
        }
        proof {
            assert(strs(parts@)[j as int] == parts@[j as int]@);
        }
        j = j + 1;
    }
    proof {
        assert(rel@.len() >= 2 ==> !(rel@[0] == '.' && rel@[1] == '/'));
        if rel@ == "."@ {
            assert(rel@.len() == 1 && rel@[0] == '.');
        }
    }
    true
}

/// Where a declared input lies: the root and the logical path below it, or the
/// input error when it is in neither namespace or not a normalized logical path.
pub fn declared_input(roots: &VerificationRoots, identity: &str) -> (r: Result<(String, String), Error>)
    ensures
        r is Ok <==> declared_location(*roots, identity@) is Some,
        r matches Ok((root, rel)) ==> declared_location(*roots, identity@) == Some((root@, rel@)),
        r matches Err(e) ==> failure_code(e) == Some(code_input()) && failure_message(e) == Some(
            "external provider input `"@ + identity@ + (if occurs_at(identity@, 0, "project:"@) || occurs_at(identity@, 0, "spec:"@) {
                "` is not a normalized logical path"@
            } else {
                "` must use project: or spec: namespace"@
            })),
{
    proof {
        reveal_strlit("project:");
        reveal_strlit("spec:");
        reveal_strlit("ADRP-EXTP-400");
    }
    let c = chars_of(identity);
    if crate::text::occurs_at_exec(&c, 0, "project:") {
        let rel = slice_string(&c, 8, c.len());
        if relative_check(rel.as_str()) {
            return Ok((roots.project_root.clone(), rel));
        }
    } else if crate::text::occurs_at_exec(&c, 0, "spec:") {
        let rel = slice_string(&c, 5, c.len());
        if relative_check(rel.as_str()) {
            return Ok((roots.specification_root.clone(), rel));
        }
    }
    let rest = if crate::text::occurs_at_exec(&c, 0, "project:") || crate::text::occurs_at_exec(&c, 0, "spec:") {
        "` is not a normalized logical path"
    } else {
        "` must use project: or spec: namespace"
    };
    Err(failure("ADRP-EXTP-400", cat3("external provider input `", identity, rest)))
}

} // verus!
