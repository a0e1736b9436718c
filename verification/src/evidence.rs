//! Proof evidence: fingerprints of the inputs a result was computed from, and
//! whether a recorded result still speaks for the current inputs.
use vstd::prelude::*;
use crate::project::{EvidenceId, ProofObligationId};
use crate::sorting::{Ordered, sort_stable, sorted_le};
use crate::text::{cat, chars_of, decimal, decimal_string, occurs_at, occurs_at_exec, own, seq_lt, str_eq, str_lt, lemma_lt_total, lemma_lt_transitive};

verus! {

/// The outcome a verification backend reported, or what became of it.
#[derive(Debug, Clone, Copy, PartialEq, Eq, Structural)]
pub enum VerificationStatus {
    Pass,
    Fail,
    Unknown,
    Unverified,
    Stale,
    NotApplicable,
    Error,
}

impl VerificationStatus {
    /// Only a pass passes continuous integration.
    pub fn is_ci_pass(&self) -> (r: bool)
        ensures
            r <==> *self == VerificationStatus::Pass,
    {
        match self {
            VerificationStatus::Pass => true,
            _ => false,
        }
    }
}

/// Whether recorded evidence still applies.
#[derive(Debug, Clone, Copy, PartialEq, Eq, Structural)]
pub enum EvidenceValidity {
    Current,
    Stale,
}

/// The content hash of one input, under its logical name.
#[derive(Debug)]
pub struct InputFingerprint {
    pub source: String,
    pub sha256: String,
}

impl Clone for InputFingerprint {
    fn clone(&self) -> (r: Self)
        ensures
            r == *self,
    {
        InputFingerprint { source: self.source.clone(), sha256: self.sha256.clone() }
    }
}

/// A recorded verification result with what it was computed from.
#[derive(Debug)]
pub struct Evidence {
    pub id: EvidenceId,
    pub obligation: ProofObligationId,
    pub backend: String,
    pub backend_version: String,
    pub configuration_sha256: String,
    pub inputs: Vec<InputFingerprint>,
    pub result_at_execution: VerificationStatus,
    pub recorded_at_unix_nanos: u128,
    pub diagnostics: Vec<String>,
}

/// Evidence with its validity.
#[derive(Debug)]
pub struct EvidenceAssessment {
    pub evidence: Evidence,
    pub validity: EvidenceValidity,
}

// ---------------------------------------------------------------------------
// Hashing
// ---------------------------------------------------------------------------

/// The SHA-256 digest of `bytes` as lower-case hexadecimal text.
pub uninterp spec fn sha256_hex(bytes: Seq<u8>) -> Seq<char>;

/// `sha2::Sha256::digest`, formatted with `{:x}`: the digest is a function of the
/// bytes alone, 32 bytes long, so its hexadecimal text has 64 characters.
#[verifier::external_body]
fn hash(bytes: &[u8]) -> (r: String)
    ensures
        r@ == sha256_hex(bytes@),
        r@.len() == 64,
{
    format!("{:x}", <sha2::Sha256 as sha2::Digest>::digest(bytes))
}

/// The fingerprint of in-memory bytes under a logical source name.
pub fn fingerprint_bytes(source: &str, bytes: &[u8]) -> (r: InputFingerprint)
    ensures
        r.source@ == source@,
        r.sha256@ == sha256_hex(bytes@),
        r.sha256@.len() == 64,
{
    InputFingerprint { source: own(source), sha256: hash(bytes) }
}

/// The identifier of stored evidence: `EVIDENCE:` and the first 24 hexadecimal
/// digits of the hash of its serialized content.
pub fn evidence_id(seed: &[u8]) -> (r: EvidenceId)
    ensures
        r.0@ == "EVIDENCE:"@ + sha256_hex(seed@).take(24),
{
    evidence_id_with("EVIDENCE:", seed)
}

/// An evidence identifier under `prefix`: the prefix and the first 24
/// hexadecimal digits of the hash of the serialized content.
pub fn evidence_id_with(prefix: &str, seed: &[u8]) -> (r: EvidenceId)
    ensures
        r.0@ == prefix@ + sha256_hex(seed@).take(24),
{
    let h = hash(seed);
    let hc = chars_of(h.as_str());
    let head = crate::text::slice_string(&hc, 0, 24);
    proof {
        assert(hc@.subrange(0, 24) =~= sha256_hex(seed@).take(24));
    }
    EvidenceId(cat(prefix, head.as_str()))
}

/// The SHA-256 of `bytes`, as 64 lowercase hexadecimal digits.
pub fn sha256_of(bytes: &[u8]) -> (r: String)
    ensures
        r@ == sha256_hex(bytes@),
        r@.len() == 64,
{
    hash(bytes)
}

/// Characters no portable file name holds: control characters and `<>:"/\|?*`.
pub open spec fn unportable(c: char) -> bool {
    ('\u{0}' <= c && c <= '\u{1F}') || ('\u{7F}' <= c && c <= '\u{9F}') || c == '<' || c == '>' || c == ':' || c == '"'
        || c == '/' || c == '\\' || c == '|' || c == '?' || c == '*'
}

/// The file name evidence is stored under: its identifier with every unportable
/// character replaced by `-`, then `.json`.
pub open spec fn storage_name(id: Seq<char>) -> Seq<char> {
    id.map_values(|c: char| if unportable(c) { '-' } else { c }) + ".json"@
}

pub fn storage_file_name(id: &EvidenceId) -> (r: String)
    ensures
        r@ == storage_name(id.0@),
{
    let cs = chars_of(id.0.as_str());
    let mut out: Vec<char> = Vec::new();
    let mut i: usize = 0;
    while i < cs.len()
        invariant
            i <= cs@.len(),
            out@ == cs@.take(i as int).map_values(|c: char| if unportable(c) { '-' } else { c }),
        decreases cs.len() - i,
    {
        let c = cs[i];
        let bad = ('\u{0}' <= c && c <= '\u{1F}') || ('\u{7F}' <= c && c <= '\u{9F}') || c == '<' || c == '>' || c == ':' || c == '"'
            || c == '/' || c == '\\' || c == '|' || c == '?' || c == '*';
        if bad {
            out.push('-');
        } else {
            out.push(c);
        }
        proof {
            assert(cs@.take(i + 1).map_values(|c: char| if unportable(c) { '-' } else { c })
                =~= cs@.take(i as int).map_values(|c: char| if unportable(c) { '-' } else { c }).push(if unportable(c) { '-' } else { c }));
        }
        i = i + 1;
    }
    proof {
        assert(cs@.take(cs@.len() as int) =~= cs@);
    }
    let stem = crate::text::string_from_chars(out.as_slice());
    cat(stem.as_str(), ".json")
}

/// The lines joined by `\n`.
pub open spec fn join_lines(s: Seq<Seq<char>>) -> Seq<char>
    decreases s.len(),
{
    if s.len() == 0 {
        Seq::empty()
    } else if s.len() == 1 {
        s[0]
    } else {
        join_lines(s.drop_last()) + "\n"@ + s.last()
    }
}

/// The text a solver configuration is hashed from.
pub open spec fn configuration_text(timeout_ms: u64, flags: Seq<Seq<char>>) -> Seq<char> {
    "timeout_ms="@ + decimal(timeout_ms as nat) + "\nflags="@ + join_lines(flags)
}

/// The hash of a solver configuration: its timeout and flags.
pub fn configuration_hash(timeout_ms: u64, flags: &Vec<String>) -> (r: String)
    ensures
        r@ == sha256_hex(vstd::utf8::encode_utf8(configuration_text(timeout_ms, crate::adr::strs(flags@)))),
{
    let mut text = own("timeout_ms=");
    let t = decimal_string(timeout_ms);
    text.append(t.as_str());
    text.append("\nflags=");
    let mut joined = String::new();
    let mut i: usize = 0;
    while i < flags.len()
        invariant
            i <= flags@.len(),
            joined@ == join_lines(crate::adr::strs(flags@.take(i as int))),
        decreases flags.len() - i,
    {
        proof {
            assert(crate::adr::strs(flags@.take(i + 1)).drop_last() =~= crate::adr::strs(flags@.take(i as int)));
        }
        if i == 0 {
            joined = flags[0].clone();
        } else {
            joined.append("\n");
            joined.append(flags[i].as_str());
        }
        i = i + 1;
    }
    proof {
        assert(flags@.take(flags@.len() as int) =~= flags@);
    }
    text.append(joined.as_str());
    let bytes = text.as_str().as_bytes();
    hash(bytes)
}


// ---------------------------------------------------------------------------
// Assessing evidence
// ---------------------------------------------------------------------------

/// The fingerprints as a map from source to hash (a later entry for a source wins).
pub open spec fn fingerprint_map(s: Seq<InputFingerprint>) -> Map<Seq<char>, Seq<char>>
    decreases s.len(),
{
    if s.len() == 0 {
        Map::empty()
    } else {
        fingerprint_map(s.drop_last()).insert(s.last().source@, s.last().sha256@)
    }
}

/// `wanted` occurs in the recorded backend version.
pub open spec fn mentions(recorded: Seq<char>, wanted: Seq<char>) -> bool {
    exists|i: int| occurs_at(recorded, i, wanted)
}

/// Evidence is current when it was computed from exactly the current inputs, by a
/// backend whose version mentions the wanted one, under the same configuration.
pub open spec fn validity_of(e: Evidence, current: Seq<InputFingerprint>, backend_version: Seq<char>, config: Seq<char>) -> EvidenceValidity {
    if fingerprint_map(e.inputs@) == fingerprint_map(current) && mentions(e.backend_version@, backend_version)
        && e.configuration_sha256@ == config {
        EvidenceValidity::Current
    } else {
        EvidenceValidity::Stale
    }
}

proof fn lemma_fingerprint_dom(s: Seq<InputFingerprint>, k: Seq<char>)
    ensures
        fingerprint_map(s).contains_key(k) <==> exists|i: int| 0 <= i < s.len() && (#[trigger] s[i]).source@ == k,
    decreases s.len(),
{
    if s.len() > 0 {
        lemma_fingerprint_dom(s.drop_last(), k);
        if exists|i: int| 0 <= i < s.drop_last().len() && (#[trigger] s.drop_last()[i]).source@ == k {
            let i = choose|i: int| 0 <= i < s.drop_last().len() && (#[trigger] s.drop_last()[i]).source@ == k;
            assert(s[i] == s.drop_last()[i]);
        }
        if exists|i: int| 0 <= i < s.len() && (#[trigger] s[i]).source@ == k {
            let i = choose|i: int| 0 <= i < s.len() && (#[trigger] s[i]).source@ == k;
            if i < s.len() - 1 {
                assert(s.drop_last()[i] == s[i]);
            }
        }
    }
}

/// No two fingerprints share a source.
pub open spec fn distinct_sources(s: Seq<InputFingerprint>) -> bool {
    forall|i: int, j: int| 0 <= i < j < s.len() ==> (#[trigger] s[i]).source@ != (#[trigger] s[j]).source@
}

proof fn lemma_fingerprint_value(s: Seq<InputFingerprint>, i: int)
    requires
        distinct_sources(s),
        0 <= i < s.len(),
    ensures
        fingerprint_map(s).contains_key(s[i].source@),
        fingerprint_map(s)[s[i].source@] == s[i].sha256@,
    decreases s.len(),
{
    if i < s.len() - 1 {
        let d = s.drop_last();
        assert(d[i] == s[i]);
        assert forall|a: int, b: int| 0 <= a < b < d.len() implies (#[trigger] d[a]).source@ != (#[trigger] d[b]).source@ by {
            assert(d[a] == s[a] && d[b] == s[b]);
        };
        lemma_fingerprint_value(d, i);
        assert(s.last().source@ != s[i].source@);
    }
}

/// Whether evidence is current does not depend on the order of the current
/// fingerprints, when no two of them share a source.
pub proof fn law_assessment_ignores_order(e: Evidence, a: Seq<InputFingerprint>, b: Seq<InputFingerprint>, backend_version: Seq<char>, config: Seq<char>)
    requires
        a.to_multiset() == b.to_multiset(),
        distinct_sources(a),
        distinct_sources(b),
    ensures
        validity_of(e, a, backend_version, config) == validity_of(e, b, backend_version, config),
{
    assert forall|k: Seq<char>| fingerprint_map(a).contains_key(k) <==> fingerprint_map(b).contains_key(k) by {
        lemma_fingerprint_dom(a, k);
        lemma_fingerprint_dom(b, k);
        if exists|i: int| 0 <= i < a.len() && (#[trigger] a[i]).source@ == k {
            let i = choose|i: int| 0 <= i < a.len() && (#[trigger] a[i]).source@ == k;
            vstd::seq_lib::to_multiset_contains(a, a[i]);
            vstd::seq_lib::to_multiset_contains(b, a[i]);
            assert(a.contains(a[i]));
            let j = choose|j: int| 0 <= j < b.len() && b[j] == a[i];
            assert(b[j].source@ == k);
        }
        if exists|i: int| 0 <= i < b.len() && (#[trigger] b[i]).source@ == k {
            let i = choose|i: int| 0 <= i < b.len() && (#[trigger] b[i]).source@ == k;
            vstd::seq_lib::to_multiset_contains(b, b[i]);
            vstd::seq_lib::to_multiset_contains(a, b[i]);
            assert(b.contains(b[i]));
            let j = choose|j: int| 0 <= j < a.len() && a[j] == b[i];
            assert(a[j].source@ == k);
        }
    };
    assert forall|k: Seq<char>| fingerprint_map(a).contains_key(k) implies fingerprint_map(a)[k] == fingerprint_map(b)[k] by {
        lemma_fingerprint_dom(a, k);
        let i = choose|i: int| 0 <= i < a.len() && (#[trigger] a[i]).source@ == k;
        vstd::seq_lib::to_multiset_contains(a, a[i]);
        vstd::seq_lib::to_multiset_contains(b, a[i]);
        assert(a.contains(a[i]));
        let j = choose|j: int| 0 <= j < b.len() && b[j] == a[i];
        lemma_fingerprint_value(a, i);
        lemma_fingerprint_value(b, j);
    };
    assert(fingerprint_map(a) =~= fingerprint_map(b));
}

fn fingerprint_lookup(s: &Vec<InputFingerprint>, k: &str) -> (r: Option<String>)
    ensures
        r matches Some(v) ==> fingerprint_map(s@).contains_key(k@) && fingerprint_map(s@)[k@] == v@,
        r is None ==> !fingerprint_map(s@).contains_key(k@),
{
    let mut found: Option<usize> = None;
    let mut i: usize = 0;
    while i < s.len()
        invariant
            i <= s@.len(),
            found matches Some(j) ==> j < i && fingerprint_map(s@.take(i as int)).contains_key(k@)
                && fingerprint_map(s@.take(i as int))[k@] == s@[j as int].sha256@,
            found is None ==> !fingerprint_map(s@.take(i as int)).contains_key(k@),
        decreases s.len() - i,
    {
        proof {
            assert(s@.take(i + 1).drop_last() =~= s@.take(i as int));
        }
        if str_eq(s[i].source.as_str(), k) {
            found = Some(i);
        }
        i = i + 1;
    }
    proof {
        assert(s@.take(s@.len() as int) =~= s@);
    }
    match found {
        Some(j) => Some(s[j].sha256.clone()),
        None => None,
    }
}

fn same_fingerprints(a: &Vec<InputFingerprint>, b: &Vec<InputFingerprint>) -> (r: bool)
    ensures
        r == (fingerprint_map(a@) == fingerprint_map(b@)),
{
    let ghost ma = fingerprint_map(a@);
    let ghost mb = fingerprint_map(b@);
    let mut i: usize = 0;
    while i < a.len()
        invariant
            i <= a@.len(),
            ma == fingerprint_map(a@),
            mb == fingerprint_map(b@),
            forall|q: int| 0 <= q < i ==> mb.contains_key(#[trigger] a@[q].source@) && ma.contains_key(a@[q].source@)
                && mb[a@[q].source@] == ma[a@[q].source@],
        decreases a.len() - i,
    {
        let k = a[i].source.as_str();
        proof {
            lemma_fingerprint_dom(a@, a@[i as int].source@);
        }
        let x = fingerprint_lookup(a, k);
        let y = fingerprint_lookup(b, k);
        let same = match (&x, &y) {
            (Some(p), Some(q)) => str_eq(p.as_str(), q.as_str()),
            _ => false,
        };
        if !same {
            proof {
                if ma == mb {
                    assert(ma.contains_key(k@));
                }
            }
            return false;
        }
        i = i + 1;
    }
    let mut j: usize = 0;
    while j < b.len()
        invariant
            j <= b@.len(),
            ma == fingerprint_map(a@),
            mb == fingerprint_map(b@),
            forall|q: int| 0 <= q < a@.len() ==> mb.contains_key(#[trigger] a@[q].source@) && ma.contains_key(a@[q].source@)
                && mb[a@[q].source@] == ma[a@[q].source@],
            forall|q: int| 0 <= q < j ==> ma.contains_key(#[trigger] b@[q].source@),
        decreases b.len() - j,
    {
        let k = b[j].source.as_str();
        proof {
            lemma_fingerprint_dom(b@, b@[j as int].source@);
        }
        let x = fingerprint_lookup(a, k);
        if x.is_none() {
            proof {
                if ma == mb {
                    assert(mb.contains_key(k@));
                }
            }
            return false;
        }
        j = j + 1;
    }
    proof {
        assert forall|k: Seq<char>| ma.contains_key(k) <==> mb.contains_key(k) by {
            lemma_fingerprint_dom(a@, k);
            lemma_fingerprint_dom(b@, k);
            if ma.contains_key(k) {
                let q = choose|q: int| 0 <= q < a@.len() && (#[trigger] a@[q]).source@ == k;
                assert(mb.contains_key(a@[q].source@));
            }
            if mb.contains_key(k) {
                let q = choose|q: int| 0 <= q < b@.len() && (#[trigger] b@[q]).source@ == k;
                assert(ma.contains_key(b@[q].source@));
            }
        };
        assert forall|k: Seq<char>| #[trigger] ma.contains_key(k) implies ma[k] == mb[k] by {
            lemma_fingerprint_dom(a@, k);
            let q = choose|q: int| 0 <= q < a@.len() && (#[trigger] a@[q]).source@ == k;
            assert(mb[a@[q].source@] == ma[a@[q].source@]);
        };
        assert(ma =~= mb);
    }
    true
}

/// Whether `needle` occurs in `hay` (`str::contains`).
pub(crate) fn mentions_exec(hay: &str, needle: &str) -> (r: bool)
    ensures
        r == mentions(hay@, needle@),
{
    let h = chars_of(hay);
    let n = chars_of(needle);
    if n.len() > h.len() {
        proof {
            assert forall|i: int| !occurs_at(hay@, i, needle@) by {};
        }
        return false;
    }
    let last = h.len() - n.len();
    let mut i: usize = 0;
    while i <= last
        invariant
            h@ == hay@,
            n@ == needle@,
            last == h@.len() - n@.len(),
            forall|q: int| 0 <= q < i ==> !occurs_at(hay@, q, needle@),
        decreases last + 1 - i,
    {
        if occurs_at_exec(&h, i, needle) {
            return true;
        }
        if i == last {
            proof {
                assert forall|q: int| !occurs_at(hay@, q, needle@) by {
                    if q > last as int {
                        assert(q + needle@.len() > hay@.len());
                    }
                };
            }
            return false;
        }
        i = i + 1;
    }
    proof {
        assert forall|q: int| !occurs_at(hay@, q, needle@) by {
            if q > last as int {
                assert(q + needle@.len() > hay@.len());
            }
        };
    }
    false
}

/// Whether recorded evidence still speaks for the current inputs, backend and
/// configuration.
pub fn assess(evidence: &Evidence, current: &Vec<InputFingerprint>, backend_version: &str, configuration_sha256: &str) -> (r: EvidenceValidity)
    ensures
        r == validity_of(*evidence, current@, backend_version@, configuration_sha256@),
{
    if same_fingerprints(&evidence.inputs, current) && mentions_exec(evidence.backend_version.as_str(), backend_version)
        && str_eq(evidence.configuration_sha256.as_str(), configuration_sha256) {
        EvidenceValidity::Current
    } else {
        EvidenceValidity::Stale
    }
}

/// Evidence order: by recording time, then by identifier.
pub open spec fn recorded_before(a: Evidence, b: Evidence) -> bool {
    a.recorded_at_unix_nanos < b.recorded_at_unix_nanos || (a.recorded_at_unix_nanos == b.recorded_at_unix_nanos
        && seq_lt(a.id.0@, b.id.0@))
}

/// Item `i` is the latest: no item is recorded after it, and every later item in
/// the list is recorded before it (of equal ones the last in the list wins).
pub open spec fn is_latest(s: Seq<Evidence>, i: int) -> bool {
    &&& 0 <= i < s.len()
    &&& forall|j: int| 0 <= j < s.len() ==> !recorded_before(s[i], #[trigger] s[j])
    &&& forall|j: int| i < j < s.len() ==> recorded_before(#[trigger] s[j], s[i])
}

proof fn lemma_recorded_order(a: Evidence, b: Evidence, c: Evidence)
    ensures
        recorded_before(a, b) || recorded_before(b, a) || (a.recorded_at_unix_nanos == b.recorded_at_unix_nanos
            && a.id.0@ == b.id.0@),
        recorded_before(a, b) && recorded_before(b, c) ==> recorded_before(a, c),
        !recorded_before(b, a) && !recorded_before(c, b) ==> !recorded_before(c, a),
        recorded_before(a, b) ==> !recorded_before(b, a),
{
    lemma_lt_total(a.id.0@, b.id.0@);
    lemma_lt_total(b.id.0@, c.id.0@);
    lemma_lt_total(a.id.0@, c.id.0@);
    if seq_lt(a.id.0@, b.id.0@) && seq_lt(b.id.0@, c.id.0@) {
        lemma_lt_transitive(a.id.0@, b.id.0@, c.id.0@);
    }
    if seq_lt(c.id.0@, b.id.0@) && seq_lt(b.id.0@, a.id.0@) {
        lemma_lt_transitive(c.id.0@, b.id.0@, a.id.0@);
    }
    if seq_lt(a.id.0@, b.id.0@) {
        crate::text::lemma_lt_asymmetric(a.id.0@, b.id.0@);
    }
    lemma_lt_total(c.id.0@, a.id.0@);
    if seq_lt(c.id.0@, a.id.0@) && seq_lt(a.id.0@, b.id.0@) {
        lemma_lt_transitive(c.id.0@, a.id.0@, b.id.0@);
    }
    if seq_lt(b.id.0@, c.id.0@) && seq_lt(c.id.0@, a.id.0@) {
        lemma_lt_transitive(b.id.0@, c.id.0@, a.id.0@);
    }
    crate::text::lemma_lt_irreflexive(a.id.0@);
    crate::text::lemma_lt_irreflexive(b.id.0@);
    crate::text::lemma_lt_irreflexive(c.id.0@);
}

fn recorded_before_exec(a: &Evidence, b: &Evidence) -> (r: bool)
    ensures
        r == recorded_before(*a, *b),
{
    a.recorded_at_unix_nanos < b.recorded_at_unix_nanos || (a.recorded_at_unix_nanos == b.recorded_at_unix_nanos
        && str_lt(a.id.0.as_str(), b.id.0.as_str()))
}

/// The most recently recorded evidence, if any.
pub fn latest(all: Vec<Evidence>) -> (r: Option<Evidence>)
    ensures
        all@.len() == 0 <==> r is None,
        r matches Some(e) ==> exists|i: int| is_latest(all@, i) && all@[i] == e,
{
    if all.len() == 0 {
        return None;
    }
    let mut best: usize = 0;
    let mut j: usize = 1;
    proof {
        lemma_recorded_order(all@[0], all@[0], all@[0]);
    }
    while j < all.len()
        invariant
            best < j <= all@.len(),
            forall|q: int| 0 <= q < j ==> !recorded_before(all@[best as int], #[trigger] all@[q]),
            forall|q: int| best < q < j ==> recorded_before(#[trigger] all@[q], all@[best as int]),
        decreases all.len() - j,
    {
        if !recorded_before_exec(&all[j], &all[best]) {
            proof {
                let s = all@;
                assert forall|q: int| 0 <= q < j + 1 implies !recorded_before(s[j as int], #[trigger] s[q]) by {
                    lemma_recorded_order(s[q], s[best as int], s[j as int]);
                    lemma_recorded_order(s[j as int], s[q], s[best as int]);
                    lemma_recorded_order(s[q], s[j as int], s[best as int]);
                    if q == j {
                        lemma_recorded_order(s[q], s[q], s[q]);
                    }
                };
            }
            best = j;
        } else {
            proof {
                lemma_recorded_order(all@[j as int], all@[best as int], all@[best as int]);
            }
        }
        j = j + 1;
    }
    let mut all = all;
    let ghost s = all@;
    let e = all.remove(best);
    proof {
        assert(is_latest(s, best as int));
    }
    Some(e)
}

/// The status of the latest evidence for the current inputs: unverified without
/// evidence, stale when it no longer applies, else the result it recorded.
pub fn evidence_status(latest: Option<Evidence>, current: &Vec<InputFingerprint>, backend_version: &str, configuration_sha256: &str) -> (r: VerificationStatus)
    ensures
        latest is None ==> r == VerificationStatus::Unverified,
        latest matches Some(e) ==> r == match validity_of(e, current@, backend_version@, configuration_sha256@) {
            EvidenceValidity::Current => e.result_at_execution,
            EvidenceValidity::Stale => VerificationStatus::Stale,
        },
{
    match latest {
        None => VerificationStatus::Unverified,
        Some(e) => match assess(&e, current, backend_version, configuration_sha256) {
            EvidenceValidity::Current => e.result_at_execution,
            EvidenceValidity::Stale => VerificationStatus::Stale,
        },
    }
}

// ---------------------------------------------------------------------------
// Laws
// ---------------------------------------------------------------------------

/// Evidence is current against the very fingerprints, backend version and
/// configuration it records.
pub proof fn law_evidence_current_for_what_it_records(e: Evidence)
    ensures
        validity_of(e, e.inputs@, e.backend_version@, e.configuration_sha256@) == EvidenceValidity::Current,
{
    assert(occurs_at(e.backend_version@, 0, e.backend_version@)) by {
        assert(e.backend_version@.subrange(0, e.backend_version@.len() as int) =~= e.backend_version@);
    };
}

/// A change of any input fingerprint, of the backend version, or of the solver
/// configuration makes evidence stale.
pub proof fn law_changes_make_evidence_stale(e: Evidence, current: Seq<InputFingerprint>, backend_version: Seq<char>, config: Seq<char>)
    requires
        fingerprint_map(e.inputs@) != fingerprint_map(current) || !mentions(e.backend_version@, backend_version)
            || e.configuration_sha256@ != config,
    ensures
        validity_of(e, current, backend_version, config) == EvidenceValidity::Stale,
{
}

// ---------------------------------------------------------------------------
// Recording stamps
// ---------------------------------------------------------------------------

/// The views of the recording stamps: time and identifier.
pub open spec fn stamp_views(s: Seq<(u128, String)>) -> Seq<(u128, Seq<char>)> {
    s.map_values(|t: (u128, String)| (t.0, t.1@))
}

/// Stamp order: by recording time, then by identifier.
pub open spec fn stamp_before(a: (u128, Seq<char>), b: (u128, Seq<char>)) -> bool {
    a.0 < b.0 || (a.0 == b.0 && seq_lt(a.1, b.1))
}

/// Stamp `i` is the latest: none is after it, and every later one in the list is
/// before it (of equal ones the last in the list wins).
pub open spec fn is_latest_stamp(s: Seq<(u128, Seq<char>)>, i: int) -> bool {
    &&& 0 <= i < s.len()
    &&& forall|j: int| 0 <= j < s.len() ==> !stamp_before(s[i], #[trigger] s[j])
    &&& forall|j: int| i < j < s.len() ==> stamp_before(#[trigger] s[j], s[i])
}

proof fn lemma_stamp_order(a: (u128, Seq<char>), b: (u128, Seq<char>), c: (u128, Seq<char>))
    ensures
        stamp_before(a, b) || stamp_before(b, a) || a == b,
        stamp_before(a, b) && stamp_before(b, c) ==> stamp_before(a, c),
        !stamp_before(b, a) && !stamp_before(c, b) ==> !stamp_before(c, a),
        stamp_before(a, b) ==> !stamp_before(b, a),
{
    lemma_lt_total(a.1, b.1);
    lemma_lt_total(b.1, c.1);
    lemma_lt_total(a.1, c.1);
    lemma_lt_total(c.1, a.1);
    if seq_lt(a.1, b.1) && seq_lt(b.1, c.1) {
        lemma_lt_transitive(a.1, b.1, c.1);
    }
    if seq_lt(c.1, b.1) && seq_lt(b.1, a.1) {
        lemma_lt_transitive(c.1, b.1, a.1);
    }
    if seq_lt(a.1, b.1) {
        crate::text::lemma_lt_asymmetric(a.1, b.1);
    }
    if seq_lt(c.1, a.1) && seq_lt(a.1, b.1) {
        lemma_lt_transitive(c.1, a.1, b.1);
    }
    if seq_lt(b.1, c.1) && seq_lt(c.1, a.1) {
        lemma_lt_transitive(b.1, c.1, a.1);
    }
    crate::text::lemma_lt_irreflexive(a.1);
    crate::text::lemma_lt_irreflexive(b.1);
    crate::text::lemma_lt_irreflexive(c.1);
}

/// The index of the latest stamp, if any.
pub fn latest_stamp(s: &Vec<(u128, String)>) -> (r: Option<usize>)
    ensures
        s@.len() == 0 <==> r is None,
        r matches Some(i) ==> is_latest_stamp(stamp_views(s@), i as int),
{
    if s.len() == 0 {
        return None;
    }
    let ghost v = stamp_views(s@);
    let mut best: usize = 0;
    let mut j: usize = 1;
    proof {
        lemma_stamp_order(v[0], v[0], v[0]);
    }
    while j < s.len()
        invariant
            best < j <= s@.len(),
            v == stamp_views(s@),
            forall|q: int| 0 <= q < j ==> !stamp_before(v[best as int], #[trigger] v[q]),
            forall|q: int| best < q < j ==> stamp_before(#[trigger] v[q], v[best as int]),
        decreases s.len() - j,
    {
        let later = s[j].0 < s[best].0 || (s[j].0 == s[best].0 && str_lt(s[j].1.as_str(), s[best].1.as_str()));
        proof {
            assert(v[j as int] == (s@[j as int].0, s@[j as int].1@));
            assert(v[best as int] == (s@[best as int].0, s@[best as int].1@));
            assert(later == stamp_before(v[j as int], v[best as int]));
        }
        if !later {
            proof {
                assert forall|q: int| 0 <= q < j + 1 implies !stamp_before(v[j as int], #[trigger] v[q]) by {
                    lemma_stamp_order(v[q], v[best as int], v[j as int]);
                    lemma_stamp_order(v[j as int], v[q], v[best as int]);
                    lemma_stamp_order(v[q], v[j as int], v[best as int]);
                    if q == j {
                        lemma_stamp_order(v[q], v[q], v[q]);
                    }
                };
            }
            best = j;
        } else {
            proof {
                lemma_stamp_order(v[j as int], v[best as int], v[best as int]);
            }
        }
        j = j + 1;
    }
    Some(best)
}

/// The fingerprints as (source, hash) pairs, in order.
pub open spec fn fingerprint_views(s: Seq<InputFingerprint>) -> Seq<(Seq<char>, Seq<char>)> {
    s.map_values(|f: InputFingerprint| (f.source@, f.sha256@))
}

/// Whether two fingerprint lists are the same, entry for entry.
pub fn same_fingerprint_list(a: &Vec<InputFingerprint>, b: &Vec<InputFingerprint>) -> (r: bool)
    ensures
        r == (fingerprint_views(a@) == fingerprint_views(b@)),
{
    if a.len() != b.len() {
        proof {
            assert(fingerprint_views(a@).len() != fingerprint_views(b@).len());
        }
        return false;
    }
    let mut i: usize = 0;
    while i < a.len()
        invariant
            i <= a@.len(),
            a@.len() == b@.len(),
            forall|q: int| 0 <= q < i ==> (#[trigger] fingerprint_views(a@)[q]) == fingerprint_views(b@)[q],
        decreases a.len() - i,
    {
        if !str_eq(a[i].source.as_str(), b[i].source.as_str()) || !str_eq(a[i].sha256.as_str(), b[i].sha256.as_str()) {
            proof {
                assert(fingerprint_views(a@)[i as int] != fingerprint_views(b@)[i as int]);
            }
            return false;
        }
        i = i + 1;
    }
    proof {
        assert(fingerprint_views(a@) =~= fingerprint_views(b@));
    }
    true
}

/// Evidence a provider records for one of its definitions, stamped with the time
/// of recording and its identifier.
pub trait Recorded: Sized {
    /// The definition the record was made for.
    spec fn owner_view(&self) -> Seq<char>;

    /// The time of recording and the identifier.
    spec fn stamp_view(&self) -> (u128, Seq<char>);

    fn owner(&self) -> (r: &str)
        ensures
            r@ == self.owner_view(),
    ;

    fn stamp(&self) -> (r: (u128, String))
        ensures
            r.0 == self.stamp_view().0,
            r.1@ == self.stamp_view().1,
    ;
}

/// The recording stamps of the evidence for one definition.
pub open spec fn stamps_for<T: Recorded>(all: Seq<T>, id: Seq<char>) -> Seq<(u128, Seq<char>, int)>
    decreases all.len(),
{
    if all.len() == 0 {
        Seq::empty()
    } else {
        let s = stamps_for(all.drop_last(), id);
        if all.last().owner_view() == id {
            s.push((all.last().stamp_view().0, all.last().stamp_view().1, all.len() - 1))
        } else {
            s
        }
    }
}

/// Item `i` of `all` is the latest evidence for the definition `id`.
pub open spec fn latest_for<T: Recorded>(all: Seq<T>, id: Seq<char>, i: int) -> bool {
    exists|k: int| 0 <= k < stamps_for(all, id).len() && (#[trigger] stamps_for(all, id)[k]).2 == i
        && is_latest_stamp(stamp_pairs(stamps_for(all, id)), k)
}

/// The stamps without their positions.
pub open spec fn stamp_pairs(s: Seq<(u128, Seq<char>, int)>) -> Seq<(u128, Seq<char>)> {
    s.map_values(|t: (u128, Seq<char>, int)| (t.0, t.1))
}

proof fn lemma_stamps_for<T: Recorded>(all: Seq<T>, id: Seq<char>)
    ensures
        forall|k: int| 0 <= k < stamps_for(all, id).len() ==> {
            let t = #[trigger] stamps_for(all, id)[k];
            0 <= t.2 < all.len() && all[t.2].owner_view() == id && t.0 == all[t.2].stamp_view().0 && t.1 == all[t.2].stamp_view().1
        },
        (exists|i: int| 0 <= i < all.len() && (#[trigger] all[i]).owner_view() == id) <==> stamps_for(all, id).len() > 0,
    decreases all.len(),
{
    if all.len() > 0 {
        lemma_stamps_for(all.drop_last(), id);
        if exists|i: int| 0 <= i < all.len() && (#[trigger] all[i]).owner_view() == id {
            let i = choose|i: int| 0 <= i < all.len() && (#[trigger] all[i]).owner_view() == id;
            if i < all.len() - 1 {
                assert(all.drop_last()[i] == all[i]);
            }
        }
        if stamps_for(all.drop_last(), id).len() > 0 {
            let t = stamps_for(all.drop_last(), id)[0];
            assert(all.drop_last()[t.2] == all[t.2]);
        }
    }
}

/// The latest of the records made for `owner`, if any.
pub fn latest_recorded<T: Recorded>(all: Vec<T>, owner: &str) -> (r: Option<T>)
    ensures
        r is None <==> !exists|i: int| 0 <= i < all@.len() && (#[trigger] all@[i]).owner_view() == owner@,
        r matches Some(e) ==> exists|i: int| #[trigger] latest_for(all@, owner@, i) && e == all@[i],
{
    let ghost s = stamps_for(all@, owner@);
    let mut stamps: Vec<(u128, String)> = Vec::new();
    let mut at: Vec<usize> = Vec::new();
    let mut i: usize = 0;
    while i < all.len()
        invariant
            i <= all@.len(),
            stamps@.len() == at@.len(),
            forall|k: int| 0 <= k < at@.len() ==> #[trigger] at@[k] < i,
            stamps_for(all@.take(i as int), owner@).len() == stamps@.len(),
            forall|k: int| 0 <= k < stamps@.len() ==> {
                let t = #[trigger] stamps_for(all@.take(i as int), owner@)[k];
                t.0 == stamps@[k].0 && t.1 == stamps@[k].1@ && t.2 == at@[k] as int
            },
        decreases all.len() - i,
    {
        proof {
            assert(all@.take(i + 1).drop_last() =~= all@.take(i as int));
            assert(all@.take(i + 1).last() == all@[i as int]);
        }
        if str_eq(all[i].owner(), owner) {
            stamps.push(all[i].stamp());
            at.push(i);
        }
        i = i + 1;
    }
    proof {
        assert(all@.take(all@.len() as int) =~= all@);
        lemma_stamps_for(all@, owner@);
        assert(stamp_views(stamps@) =~= stamp_pairs(s));
    }
    match latest_stamp(&stamps) {
        None => None,
        Some(k) => {
            let index = at[k];
            let mut all = all;
            let ghost a0 = all@;
            let e = all.swap_remove(index);
            proof {
                assert(s[k as int].2 == index as int);
                assert(latest_for(a0, owner@, index as int));
            }
            Some(e)
        },
    }
}

} // verus!
