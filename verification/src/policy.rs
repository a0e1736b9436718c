//! Time-bounded waivers of diagnostic findings.
use vstd::prelude::*;
use crate::adr::Error;
use crate::text::{own, str_eq, trim};

verus! {

/// The schema identifier of a diagnostic policy.
pub open spec fn policy_schema() -> Seq<char> {
    "adrproof-diagnostic-policy-v1"@
}

/// A set of waivers.
#[derive(Debug)]
pub struct DiagnosticPolicy {
    pub schema_version: String,
    pub waivers: Vec<Waiver>,
}

/// A waiver of one finding until a moment.
#[derive(Debug)]
pub struct Waiver {
    pub id: String,
    pub finding_id: String,
    pub owner: String,
    pub reason: String,
    pub expires_unix_seconds: u64,
}

/// A waiver applied to a finding.
#[derive(Debug)]
pub struct AppliedWaiver {
    pub waiver_id: String,
    pub finding_id: String,
    pub owner: String,
    pub reason: String,
    pub expires_unix_seconds: u64,
}

/// Waivers applied to findings: per finding the waiver applied to it, if any.
#[derive(Debug)]
pub struct WaiverAssessment {
    pub applied: Vec<Option<AppliedWaiver>>,
    pub applied_waivers: Vec<AppliedWaiver>,
    pub unwaived_finding_count: usize,
    pub diagnostics: Vec<String>,
}

/// Nothing but whitespace.
pub open spec fn blank(s: Seq<char>) -> bool {
    trim(s).len() == 0
}

pub open spec fn incomplete(w: Waiver) -> bool {
    blank(w.id@) || blank(w.finding_id@) || blank(w.owner@) || blank(w.reason@)
}

/// What is wrong with waiver `i` given those before it, if anything.
pub open spec fn waiver_problem(ws: Seq<Waiver>, i: int) -> Option<Seq<char>> {
    if incomplete(ws[i]) {
        Some("waiver id, finding_id, owner, and reason must be non-empty"@)
    } else if exists|j: int| 0 <= j < i && (#[trigger] ws[j]).id@ == ws[i].id@ {
        Some("duplicate waiver id "@ + ws[i].id@)
    } else if exists|j: int| 0 <= j < i && (#[trigger] ws[j]).finding_id@ == ws[i].finding_id@ {
        Some("multiple waivers target finding "@ + ws[i].finding_id@)
    } else {
        None
    }
}

fn is_blank(s: &str) -> (r: bool)
    ensures
        r == blank(s@),
{
    let t = crate::text::trim_string(s);
    proof {
        reveal_strlit("");
        assert(t@.len() == 0 ==> t@ =~= ""@);
    }
    str_eq(t.as_str(), "")
}

fn first_problem(ws: &Vec<Waiver>, i: usize) -> (r: Option<String>)
    requires
        i < ws@.len(),
    ensures
        match r {
            Some(m) => waiver_problem(ws@, i as int) == Some(m@),
            None => waiver_problem(ws@, i as int) is None,
        },
{
    let w = &ws[i];
    if is_blank(w.id.as_str()) || is_blank(w.finding_id.as_str()) || is_blank(w.owner.as_str()) || is_blank(w.reason.as_str()) {
        return Some(own("waiver id, finding_id, owner, and reason must be non-empty"));
    }
    let mut j: usize = 0;
    while j < i
        invariant
            i < ws@.len(),
            j <= i,
            *w == ws@[i as int],
            !incomplete(ws@[i as int]),
            forall|q: int| 0 <= q < j ==> (#[trigger] ws@[q]).id@ != ws@[i as int].id@,
        decreases i - j,
    {
        if str_eq(ws[j].id.as_str(), w.id.as_str()) {
            return Some(crate::text::cat("duplicate waiver id ", w.id.as_str()));
        }
        j = j + 1;
    }
    let mut j: usize = 0;
    while j < i
        invariant
            i < ws@.len(),
            j <= i,
            *w == ws@[i as int],
            !incomplete(ws@[i as int]),
            forall|q: int| 0 <= q < i ==> (#[trigger] ws@[q]).id@ != ws@[i as int].id@,
            forall|q: int| 0 <= q < j ==> (#[trigger] ws@[q]).finding_id@ != ws@[i as int].finding_id@,
        decreases i - j,
    {
        if str_eq(ws[j].finding_id.as_str(), w.finding_id.as_str()) {
            return Some(crate::text::cat("multiple waivers target finding ", w.finding_id.as_str()));
        }
        j = j + 1;
    }
    None
}

/// Checks the schema, then each waiver in order: all four texts non-blank, its
/// identifier new, and no earlier waiver for its finding.
pub fn validate(policy: &DiagnosticPolicy) -> (r: Result<(), Error>)
    ensures
        r is Ok <==> (policy.schema_version@ == policy_schema() && forall|i: int|
            0 <= i < policy.waivers@.len() ==> #[trigger] waiver_problem(policy.waivers@, i) is None),
        policy.schema_version@ != policy_schema() ==> (r matches Err(Error::ProviderFailure(m))
            && m@ == "expected policy schema "@ + policy_schema() + ", observed "@ + policy.schema_version@),
        policy.schema_version@ == policy_schema() && r is Err ==> exists|i: int|
            0 <= i < policy.waivers@.len() && (forall|j: int| 0 <= j < i ==> #[trigger] waiver_problem(policy.waivers@, j) is None)
                && (r matches Err(Error::ProviderFailure(m)) && #[trigger] waiver_problem(policy.waivers@, i) == Some(m@)),
{
    proof {
        reveal_strlit("adrproof-diagnostic-policy-v1");
    }
    if !str_eq(policy.schema_version.as_str(), "adrproof-diagnostic-policy-v1") {
        let m = crate::text::cat3("expected policy schema ", "adrproof-diagnostic-policy-v1", ", observed ");
        let m = crate::text::cat(m.as_str(), policy.schema_version.as_str());
        return Err(Error::ProviderFailure(m));
    }
    let ws = &policy.waivers;
    let mut i: usize = 0;
    while i < ws.len()
        invariant
            i <= ws@.len(),
            ws@ == policy.waivers@,
            policy.schema_version@ == policy_schema(),
            forall|j: int| 0 <= j < i ==> #[trigger] waiver_problem(ws@, j) is None,
        decreases ws.len() - i,
    {
        match first_problem(ws, i) {
            Some(m) => return Err(Error::ProviderFailure(m)),
            None => {},
        }
        i = i + 1;
    }
    Ok(())
}

/// The waiver still in force at `now`.
pub open spec fn active(w: Waiver, now: u64) -> bool {
    w.expires_unix_seconds > now
}

/// The waiver applied to a finding with identifier `id` (none counts as empty): the
/// last waiver in force for it.
pub open spec fn waiver_for(ws: Seq<Waiver>, now: u64, id: Seq<char>) -> Option<int>
    decreases ws.len(),
{
    if ws.len() == 0 {
        None
    } else if active(ws.last(), now) && ws.last().finding_id@ == id {
        Some(ws.len() - 1)
    } else {
        waiver_for(ws.drop_last(), now, id)
    }
}

/// A waiver is applied to a finding only when it targets that finding and is still in
/// force (it expires after `now`); and a finding that some waiver in force targets
/// is waived. The waiver applied is the last such one.
pub proof fn law_waiver_in_force(ws: Seq<Waiver>, now: u64, id: Seq<char>)
    ensures
        waiver_for(ws, now, id) matches Some(j) ==> 0 <= j < ws.len() && ws[j].expires_unix_seconds > now
            && ws[j].finding_id@ == id
            && forall|k: int| j < k < ws.len() ==> !((#[trigger] ws[k]).expires_unix_seconds > now && ws[k].finding_id@ == id),
        waiver_for(ws, now, id) is None <==> forall|k: int| 0 <= k < ws.len()
            ==> !((#[trigger] ws[k]).expires_unix_seconds > now && ws[k].finding_id@ == id),
    decreases ws.len(),
{
    if ws.len() > 0 {
        law_waiver_in_force(ws.drop_last(), now, id);
        assert forall|k: int| 0 <= k < ws.len() - 1 implies (#[trigger] ws.drop_last()[k]) == ws[k] by {};
        if !(ws.last().expires_unix_seconds > now && ws.last().finding_id@ == id) {
            assert forall|k: int| 0 <= k < ws.len() && (#[trigger] ws[k]).expires_unix_seconds > now && ws[k].finding_id@ == id
                implies k < ws.len() - 1 && ws.drop_last()[k].expires_unix_seconds > now && ws.drop_last()[k].finding_id@ == id by {};
        }
    }
}

pub open spec fn finding_key(id: Option<String>) -> Seq<char> {
    match id {
        Some(s) => s@,
        None => Seq::empty(),
    }
}

/// `a` is waiver `w` as applied.
pub open spec fn applied_from(a: AppliedWaiver, w: Waiver) -> bool {
    &&& a.waiver_id@ == w.id@
    &&& a.finding_id@ == w.finding_id@
    &&& a.owner@ == w.owner@
    &&& a.reason@ == w.reason@
    &&& a.expires_unix_seconds == w.expires_unix_seconds
}

pub open spec fn same_applied(a: AppliedWaiver, b: AppliedWaiver) -> bool {
    &&& a.waiver_id@ == b.waiver_id@
    &&& a.finding_id@ == b.finding_id@
    &&& a.owner@ == b.owner@
    &&& a.reason@ == b.reason@
    &&& a.expires_unix_seconds == b.expires_unix_seconds
}

/// Some finding before `k` had `w` applied.
pub open spec fn listed(applied: Seq<Option<AppliedWaiver>>, k: int, w: AppliedWaiver) -> bool {
    exists|q: int| 0 <= q < k && ((#[trigger] applied[q]) matches Some(a) && same_applied(a, w))
}

/// The diagnostics: each expired waiver, then each waiver in force that matches no
/// finding, in waiver order.
pub open spec fn expiry_notes(ws: Seq<Waiver>, now: u64) -> Seq<Seq<char>>
    decreases ws.len(),
{
    if ws.len() == 0 {
        Seq::empty()
    } else if !active(ws.last(), now) {
        expiry_notes(ws.drop_last(), now).push("waiver "@ + ws.last().id@ + " is expired"@)
    } else {
        expiry_notes(ws.drop_last(), now)
    }
}

pub open spec fn has_finding(ids: Seq<Option<String>>, k: Seq<char>) -> bool {
    exists|i: int| 0 <= i < ids.len() && ((#[trigger] ids[i]) matches Some(s) && s@ == k)
}

pub open spec fn unmatched_notes(ws: Seq<Waiver>, now: u64, ids: Seq<Option<String>>) -> Seq<Seq<char>>
    decreases ws.len(),
{
    if ws.len() == 0 {
        Seq::empty()
    } else if active(ws.last(), now) && !has_finding(ids, ws.last().finding_id@) {
        unmatched_notes(ws.drop_last(), now, ids).push("waiver "@ + ws.last().id@ + " does not match a current finding"@)
    } else {
        unmatched_notes(ws.drop_last(), now, ids)
    }
}

pub open spec fn count_unwaived(ws: Seq<Waiver>, now: u64, ids: Seq<Option<String>>) -> nat
    decreases ids.len(),
{
    if ids.len() == 0 {
        0
    } else {
        count_unwaived(ws, now, ids.drop_last()) + if waiver_for(ws, now, finding_key(ids.last())) is None { 1nat } else { 0nat }
    }
}

fn waiver_for_exec(ws: &Vec<Waiver>, now: u64, id: &str) -> (r: Option<usize>)
    ensures
        match r {
            Some(j) => j < ws@.len() && waiver_for(ws@, now, id@) == Some(j as int),
            None => waiver_for(ws@, now, id@) is None,
        },
{
    let mut k: usize = ws.len();
    proof {
        assert(ws@.take(k as int) =~= ws@);
    }
    while k > 0
        invariant
            k <= ws@.len(),
            waiver_for(ws@, now, id@) == waiver_for(ws@.take(k as int), now, id@),
        decreases k,
    {
        proof {
            assert(ws@.take(k as int).drop_last() =~= ws@.take(k - 1));
        }
        if ws[k - 1].expires_unix_seconds > now && str_eq(ws[k - 1].finding_id.as_str(), id) {
            return Some(k - 1);
        }
        k = k - 1;
    }
    None
}

fn apply_one(w: &Waiver) -> (a: AppliedWaiver)
    ensures
        applied_from(a, *w),
{
    AppliedWaiver {
        waiver_id: own(w.id.as_str()),
        finding_id: own(w.finding_id.as_str()),
        owner: own(w.owner.as_str()),
        reason: own(w.reason.as_str()),
        expires_unix_seconds: w.expires_unix_seconds,
    }
}

fn has_finding_exec(ids: &Vec<Option<String>>, k: &str) -> (r: bool)
    ensures
        r == has_finding(ids@, k@),
{
    let mut i: usize = 0;
    while i < ids.len()
        invariant
            i <= ids@.len(),
            forall|q: int| 0 <= q < i ==> !((#[trigger] ids@[q]) matches Some(s) && s@ == k@),
        decreases ids.len() - i,
    {
        match &ids[i] {
            Some(s) => {
                if str_eq(s.as_str(), k) {
                    return true;
                }
            },
            None => {},
        }
        i = i + 1;
    }
    false
}

/// Applies the waivers in force at `now` to findings with the given identifiers.
pub fn apply(finding_ids: &Vec<Option<String>>, policy: &DiagnosticPolicy, now_unix_seconds: u64) -> (r: WaiverAssessment)
    ensures
        r.applied@.len() == finding_ids@.len(),
        forall|k: int| 0 <= k < finding_ids@.len() ==> ((#[trigger] r.applied@[k]) matches Some(a) ==> a.expires_unix_seconds > now_unix_seconds
            && a.finding_id@ == finding_key(finding_ids@[k])),
        forall|k: int| 0 <= k < finding_ids@.len() ==> match waiver_for(policy.waivers@, now_unix_seconds, finding_key(finding_ids@[k])) {
            Some(j) => ((#[trigger] r.applied@[k]) matches Some(a) && applied_from(a, policy.waivers@[j])),
            None => r.applied@[k] is None,
        },
        r.applied_waivers@.len() + r.unwaived_finding_count == finding_ids@.len(),
        r.unwaived_finding_count == count_unwaived(policy.waivers@, now_unix_seconds, finding_ids@),
        forall|j: int| 0 <= j < r.applied_waivers@.len() ==> listed(r.applied@, finding_ids@.len() as int, #[trigger] r.applied_waivers@[j]),
        crate::adr::strs(r.diagnostics@) == expiry_notes(policy.waivers@, now_unix_seconds)
            + unmatched_notes(policy.waivers@, now_unix_seconds, finding_ids@),
{
    let ws = &policy.waivers;
    let mut applied: Vec<Option<AppliedWaiver>> = Vec::new();
    let mut applied_waivers: Vec<AppliedWaiver> = Vec::new();
    let mut unwaived: usize = 0;
    let mut k: usize = 0;
    while k < finding_ids.len()
        invariant
            k <= finding_ids@.len(),
            applied@.len() == k,
            applied_waivers@.len() + unwaived == k,
            unwaived == count_unwaived(ws@, now_unix_seconds, finding_ids@.take(k as int)),
            forall|q: int| 0 <= q < k ==> match waiver_for(ws@, now_unix_seconds, finding_key(finding_ids@[q])) {
                Some(j) => ((#[trigger] applied@[q]) matches Some(a) && applied_from(a, ws@[j])),
                None => applied@[q] is None,
            },
            forall|j: int| 0 <= j < applied_waivers@.len() ==> listed(applied@, k as int, #[trigger] applied_waivers@[j]),
        decreases finding_ids.len() - k,
    {
        let id: &str = match &finding_ids[k] {
            Some(s) => s.as_str(),
            None => "",
        };
        proof {
            reveal_strlit("");
            assert(id@ == finding_key(finding_ids@[k as int])) by {
                if finding_ids@[k as int] is None {
                    assert(""@ =~= Seq::<char>::empty());
                }
            };
            assert(finding_ids@.take(k + 1).drop_last() =~= finding_ids@.take(k as int));
        }
        let ghost a0 = applied@;
        let ghost w0 = applied_waivers@;
        match waiver_for_exec(ws, now_unix_seconds, id) {
            Some(j) => {
                let a = apply_one(&ws[j]);
                let a2 = apply_one(&ws[j]);
                applied.push(Some(a));
                applied_waivers.push(a2);
                proof {
                    assert forall|jj: int| 0 <= jj < applied_waivers@.len() implies listed(applied@, k + 1, #[trigger] applied_waivers@[jj]) by {
                        if jj < w0.len() {
                            assert(listed(a0, k as int, w0[jj]));
                            let q = choose|q: int| 0 <= q < k && ((#[trigger] a0[q]) matches Some(a) && same_applied(a, w0[jj]));
                            assert(applied@[q] == a0[q]);
                        } else {
                            assert(applied@[k as int] matches Some(x) && same_applied(x, applied_waivers@[jj]));
                        }
                    };
                }
            },
            None => {
                applied.push(None);
                unwaived = unwaived + 1;
                proof {
                    assert forall|jj: int| 0 <= jj < applied_waivers@.len() implies listed(applied@, k + 1, #[trigger] applied_waivers@[jj]) by {
                        assert(listed(a0, k as int, w0[jj]));
                        let q = choose|q: int| 0 <= q < k && ((#[trigger] a0[q]) matches Some(a) && same_applied(a, w0[jj]));
                        assert(applied@[q] == a0[q]);
                    };
                }
            },
        }
        proof {
            assert forall|q: int| 0 <= q < k + 1 implies match waiver_for(ws@, now_unix_seconds, finding_key(finding_ids@[q])) {
                Some(j) => ((#[trigger] applied@[q]) matches Some(a) && applied_from(a, ws@[j])),
                None => applied@[q] is None,
            } by {
                if q < k {
                    assert(applied@[q] == a0[q]);
                }
            };
        }
        k = k + 1;
    }
    proof {
        assert(finding_ids@.take(finding_ids@.len() as int) =~= finding_ids@);
    }
    let mut diagnostics: Vec<String> = Vec::new();
    let mut i: usize = 0;
    while i < ws.len()
        invariant
            i <= ws@.len(),
            crate::adr::strs(diagnostics@) == expiry_notes(ws@.take(i as int), now_unix_seconds),
        decreases ws.len() - i,
    {
        proof {
            assert(ws@.take(i + 1).drop_last() =~= ws@.take(i as int));
        }
        if ws[i].expires_unix_seconds <= now_unix_seconds {
            let m = crate::text::cat3("waiver ", ws[i].id.as_str(), " is expired");
            let ghost d0 = diagnostics@;
            diagnostics.push(m);
            proof {
                assert(crate::adr::strs(diagnostics@) =~= crate::adr::strs(d0).push(m@));
            }
        }
        i = i + 1;
    }
    proof {
        assert(ws@.take(ws@.len() as int) =~= ws@);
    }
    let ghost ex = crate::adr::strs(diagnostics@);
    let mut i: usize = 0;
    while i < ws.len()
        invariant
            i <= ws@.len(),
            crate::adr::strs(diagnostics@) == ex + unmatched_notes(ws@.take(i as int), now_unix_seconds, finding_ids@),
        decreases ws.len() - i,
    {
        proof {
            assert(ws@.take(i + 1).drop_last() =~= ws@.take(i as int));
        }
        if ws[i].expires_unix_seconds > now_unix_seconds && !has_finding_exec(finding_ids, ws[i].finding_id.as_str()) {
            let m = crate::text::cat3("waiver ", ws[i].id.as_str(), " does not match a current finding");
            let ghost d0 = diagnostics@;
            diagnostics.push(m);
            proof {
                assert(crate::adr::strs(diagnostics@) =~= crate::adr::strs(d0).push(m@));
            }
        }
        i = i + 1;
    }
    proof {
        assert(ws@.take(ws@.len() as int) =~= ws@);
        assert forall|k: int| 0 <= k < finding_ids@.len() implies ((#[trigger] applied@[k]) matches Some(a)
            ==> a.expires_unix_seconds > now_unix_seconds && a.finding_id@ == finding_key(finding_ids@[k])) by {
            law_waiver_in_force(ws@, now_unix_seconds, finding_key(finding_ids@[k]));
        };
    }
    WaiverAssessment { applied, applied_waivers, unwaived_finding_count: unwaived, diagnostics }
}

/// A policy that validates has distinct waiver identifiers and at most one waiver
/// per finding.
pub proof fn law_valid_policy_waivers_are_distinct(policy: DiagnosticPolicy, i: int, j: int)
    requires
        forall|k: int| 0 <= k < policy.waivers@.len() ==> #[trigger] waiver_problem(policy.waivers@, k) is None,
        0 <= i < j < policy.waivers@.len(),
    ensures
        policy.waivers@[i].id@ != policy.waivers@[j].id@,
        policy.waivers@[i].finding_id@ != policy.waivers@[j].finding_id@,
{
    assert(waiver_problem(policy.waivers@, j) is None);
}

// ---------------------------------------------------------------------------
// SARIF results
// ---------------------------------------------------------------------------

/// What a SARIF result says of a finding: its rule, level, message and location,
/// and whether a waiver suppresses it.
#[derive(Debug)]
pub struct SarifResult {
    pub rule_id: String,
    pub level: String,
    pub message: String,
    pub uri: String,
    pub suppressed: bool,
}

pub open spec fn or_default(o: Option<&str>, d: Seq<char>) -> Seq<char> {
    match o {
        Some(s) => s@,
        None => d,
    }
}

/// The SARIF result of a finding with the given fields (absent ones take their
/// defaults: rule `ADRPROOF`, kind `verification`, location `specification`,
/// status `ATTENTION`): an error when the status is `FAIL` or `ERROR`, else a
/// warning, with the message `KIND ID: STATUS`; a waived finding is suppressed.
pub fn sarif_result(id: Option<&str>, kind: Option<&str>, source: Option<&str>, status: Option<&str>, waived: bool) -> (r: SarifResult)
    ensures
        r.rule_id@ == or_default(id, "ADRPROOF"@),
        r.level@ == if or_default(status, "ATTENTION"@) == "FAIL"@ || or_default(status, "ATTENTION"@) == "ERROR"@ {
            "error"@
        } else {
            "warning"@
        },
        r.message@ == or_default(kind, "verification"@) + " "@ + or_default(id, "ADRPROOF"@) + ": "@ + or_default(status, "ATTENTION"@),
        r.uri@ == or_default(source, "specification"@),
        r.suppressed == waived,
{
    let id = match id {
        Some(x) => x,
        None => "ADRPROOF",
    };
    let kind = match kind {
        Some(x) => x,
        None => "verification",
    };
    let source = match source {
        Some(x) => x,
        None => "specification",
    };
    let status = match status {
        Some(x) => x,
        None => "ATTENTION",
    };
    let failing = crate::text::str_eq(status, "FAIL") || crate::text::str_eq(status, "ERROR");
    let mut message = crate::text::cat3(kind, " ", id);
    message.append(": ");
    message.append(status);
    SarifResult {
        rule_id: own(id),
        level: if failing { own("error") } else { own("warning") },
        message,
        uri: own(source),
        suppressed: waived,
    }
}

} // verus!
