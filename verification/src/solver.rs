//! What a Z3 run printed, read as a backend result: the verdict on the first line
//! and, after `unsat`, the names of the unsat core.
use vstd::prelude::*;
use crate::adr::{Error, strs};
use crate::check::{BackendResult, Verdict};
use crate::document::{lines_from, trim_set};
use crate::keyed::{has_key, strictly_sorted};
use crate::text::{is_trim_ws, own, str_eq, trim};

verus! {

/// The text after the first line, lines joined without separators.
pub open spec fn after_first_line(out: Seq<char>) -> Seq<char> {
    let ls = lines_from(out, 0);
    if ls.len() <= 1 {
        Seq::empty()
    } else {
        ls.skip(1).flatten()
    }
}

/// The end of the run of non-whitespace starting at `i`.
pub open spec fn run_end(t: Seq<char>, i: int) -> int
    decreases t.len() - i,
{
    if 0 <= i < t.len() && !is_trim_ws(t[i]) {
        run_end(t, i + 1)
    } else {
        i
    }
}

/// The whitespace-separated words of `t` from `i` on (`str::split_whitespace`).
pub open spec fn words_from(t: Seq<char>, i: int) -> Seq<Seq<char>>
    decreases t.len() - i,
{
    if i < 0 || i >= t.len() {
        Seq::empty()
    } else if is_trim_ws(t[i]) {
        words_from(t, i + 1)
    } else {
        let e = run_end(t, i);
        if i < e <= t.len() {
            seq![t.subrange(i, e)] + words_from(t, e)
        } else {
            Seq::empty()
        }
    }
}

/// The names an unsat core lists: the text after the first line, trimmed of
/// whitespace and of parentheses, split into words, each trimmed of `|`.
pub open spec fn core_names(out: Seq<char>) -> Seq<Seq<char>> {
    words_from(trim_set(trim(after_first_line(out)), seq!['(', ')']), 0).map_values(|w: Seq<char>| trim_set(w, seq!['|']))
}

proof fn lemma_run_end_bounds(t: Seq<char>, i: int)
    requires
        0 <= i <= t.len(),
    ensures
        i <= run_end(t, i) <= t.len(),
        forall|k: int| i <= k < run_end(t, i) ==> !is_trim_ws(#[trigger] t[k]),
        run_end(t, i) < t.len() ==> is_trim_ws(t[run_end(t, i)]),
    decreases t.len() - i,
{
    if i < t.len() && !is_trim_ws(t[i]) {
        lemma_run_end_bounds(t, i + 1);
    }
}

/// The names of an unsat core, each once, in order (sorted and deduplicated).
pub fn parse_core(output: &str) -> (r: Vec<String>)
    ensures
        strictly_sorted(r@),
        forall|n: Seq<char>| #[trigger] has_key(r@, n) <==> core_names(output@).contains(n),
{
    let ls = crate::document::lines(output);
    let ghost L = lines_from(output@, 0);
    proof {
        assert(strs(ls@) =~= L);
    }
    let mut body: Vec<char> = Vec::new();
    let mut i: usize = 1;
    proof {
        if L.len() > 1 {
            assert(L.skip(1).take(0) =~= Seq::<Seq<char>>::empty());
        }
        assert(body@ =~= Seq::<char>::empty());
    }
    while i < ls.len()
        invariant
            1 <= i <= ls@.len() || ls@.len() == 0,
            strs(ls@) == L,
            L.len() == ls@.len(),
            ls@.len() > 1 ==> body@ == L.skip(1).take(i - 1).flatten(),
            ls@.len() <= 1 ==> body@.len() == 0,
        decreases ls.len() - i,
    {
        let lc = crate::text::chars_of(ls[i].as_str());
        let ghost b0 = body@;
        let mut k: usize = 0;
        while k < lc.len()
            invariant
                k <= lc@.len(),
                body@ == b0 + lc@.subrange(0, k as int),
            decreases lc.len() - k,
        {
            body.push(lc[k]);
            proof {
                assert(body@ =~= b0 + lc@.subrange(0, k + 1));
            }
            k = k + 1;
        }
        proof {
            assert(lc@.subrange(0, lc@.len() as int) =~= lc@);
            assert(L[i as int] == ls@[i as int]@);
            let t = L.skip(1).take(i as int);
            assert(t.drop_last() =~= L.skip(1).take(i - 1));
            assert(t.last() == L[i as int]);
            t.lemma_flatten_and_flatten_alt_are_equivalent();
            t.drop_last().lemma_flatten_and_flatten_alt_are_equivalent();
            assert(body@ =~= t.flatten());
        }
        i = i + 1;
    }
    proof {
        if ls@.len() > 1 {
            assert(L.skip(1).take(i - 1) =~= L.skip(1));
        }
        assert(body@ == after_first_line(output@));
    }
    let (a, b) = crate::text::trim_bounds(&body, 0, body.len());
    proof {
        assert(body@.subrange(0, body@.len() as int) =~= body@);
    }
    let mut parens: Vec<char> = Vec::new();
    parens.push('(');
    parens.push(')');
    let (c, d) = crate::document::trim_matches_bounds(&body, a, b, &parens);
    let t = crate::text::slice_chars(&body, c, d);
    let mut bars: Vec<char> = Vec::new();
    bars.push('|');
    proof {
        assert(parens@ =~= seq!['(', ')']);
        assert(bars@ =~= seq!['|']);
        assert(t@ == trim_set(trim(after_first_line(output@)), seq!['(', ')']));
    }
    let ghost T = t@;
    let ghost bar = seq!['|'];
    let mut names: Vec<String> = Vec::new();
    let ghost mut done: Seq<Seq<char>> = Seq::empty();
    let mut p: usize = 0;
    proof {
        assert(done + words_from(T, 0) =~= words_from(T, 0));
    }
    while p < t.len()
        invariant
            p <= t@.len(),
            t@ == T,
            bars@ == bar,
            bar == seq!['|'],
            strictly_sorted(names@),
            done + words_from(T, p as int) == words_from(T, 0),
            forall|n: Seq<char>| #[trigger] has_key(names@, n) <==> done.map_values(|w: Seq<char>| trim_set(w, bar)).contains(n),
        decreases t.len() - p,
    {
        if crate::text::is_trim_ws_exec(t[p]) {
            p = p + 1;
        } else {
            let mut q: usize = p;
            while q < t.len() && !crate::text::is_trim_ws_exec(t[q])
                invariant
                    p <= q <= t@.len(),
                    t@ == T,
                    run_end(T, p as int) == run_end(T, q as int),
                decreases t.len() - q,
            {
                q = q + 1;
            }
            proof {
                lemma_run_end_bounds(T, p as int);
                assert(run_end(T, q as int) == q);
            }
            let word = crate::text::slice_chars(&t, p, q);
            let (x, y) = crate::document::trim_matches_bounds(&word, 0, word.len(), &bars);
            let name = crate::text::slice_string(&word, x, y);
            proof {
                assert(word@.subrange(0, word@.len() as int) =~= word@);
                assert(name@ == trim_set(T.subrange(p as int, q as int), bar));
            }
            let ghost n0 = names@;
            let ghost d0 = done;
            crate::keyed::upsert(&mut names, name);
            proof {
                done = d0.push(T.subrange(p as int, q as int));
                assert(words_from(T, p as int) == seq![T.subrange(p as int, q as int)] + words_from(T, q as int));
                assert(done + words_from(T, q as int) =~= d0 + words_from(T, p as int));
                assert(done.map_values(|w: Seq<char>| trim_set(w, bar)) =~= d0.map_values(|w: Seq<char>| trim_set(w, bar)).push(
                    trim_set(T.subrange(p as int, q as int), bar),
                ));
                assert forall|n: Seq<char>| #[trigger] has_key(names@, n) <==> done.map_values(|w: Seq<char>| trim_set(w, bar)).contains(n) by {
                    let dm = d0.map_values(|w: Seq<char>| trim_set(w, bar));
                    assert(has_key(names@, n) == (has_key(n0, n) || n == name@));
                    assert(has_key(n0, n) == dm.contains(n));
                    if n == name@ {
                        assert(done.map_values(|w: Seq<char>| trim_set(w, bar))[d0.len() as int] == n);
                    }
                    if dm.contains(n) {
                        let k = choose|k: int| 0 <= k < dm.len() && dm[k] == n;
                        assert(done.map_values(|w: Seq<char>| trim_set(w, bar))[k] == n);
                    }
                    let nm = done.map_values(|w: Seq<char>| trim_set(w, bar));
                    if nm.contains(n) {
                        let k = choose|k: int| 0 <= k < nm.len() && nm[k] == n;
                        if k < d0.len() {
                            assert(dm[k] == n);
                        }
                    }
                };
            }
            p = q;
        }
    }
    proof {
        assert(words_from(T, p as int) =~= Seq::<Seq<char>>::empty());
        assert(done =~= words_from(T, 0));
    }
    names
}

/// The first line of what was printed, or nothing.
pub open spec fn first_line(out: Seq<char>) -> Seq<char> {
    let ls = lines_from(out, 0);
    if ls.len() == 0 {
        Seq::empty()
    } else {
        ls[0]
    }
}

/// The verdict a first line gives: `sat`, `unsat`, `unknown` (a timeout once the
/// run took the whole timeout), anything else a solver failure.
pub open spec fn verdict_of(first: Seq<char>, elapsed_ms: u64, timeout_ms: u64) -> Verdict {
    if first == "sat"@ {
        Verdict::Sat
    } else if first == "unsat"@ {
        Verdict::Unsat
    } else if first == "unknown"@ {
        if elapsed_ms >= timeout_ms {
            Verdict::Timeout
        } else {
            Verdict::Unknown
        }
    } else {
        Verdict::SolverFailure
    }
}

/// Checks that the solver's version text mentions the pinned version.
pub fn check_version(actual: &str, expected: &str) -> (r: Result<(), Error>)
    ensures
        r is Ok <==> crate::evidence::mentions(actual@, expected@),
        r matches Err(e) ==> (e matches Error::SolverVersion { expected: x, actual: y } && x@ == expected@ && y@ == actual@),
{
    if crate::evidence::mentions_exec(actual, expected) {
        Ok(())
    } else {
        Err(Error::SolverVersion { expected: own(expected), actual: own(actual) })
    }
}

/// The backend result of a finished Z3 run: what it printed, whether it exited
/// successfully, what it wrote to standard error, how long it took, its timeout and
/// its version. A run that failed without printing a verdict is a solver failure;
/// otherwise the first line gives the verdict and, after `unsat`, the core names.
pub fn z3_result(stdout: &str, exit_ok: bool, stderr: &str, elapsed_ms: u64, timeout_ms: u64, version: &str) -> (r: Result<BackendResult, Error>)
    ensures
        r is Err <==> !exit_ok && !(first_line(stdout@) == "sat"@ || first_line(stdout@) == "unsat"@ || first_line(stdout@) == "unknown"@),
        r matches Err(e) ==> (e matches Error::SolverFailure(m) && m@ == stderr@),
        r matches Ok(res) ==> {
            &&& res.verdict == verdict_of(first_line(stdout@), elapsed_ms, timeout_ms)
            &&& res.solver_version@ == version@
            &&& res.elapsed_ms == elapsed_ms
            &&& res.timeout_ms == timeout_ms
            &&& (res.verdict == Verdict::Unsat ==> strictly_sorted(res.core@) && forall|n: Seq<char>| #[trigger] has_key(res.core@, n)
                <==> core_names(stdout@).contains(n))
            &&& (res.verdict != Verdict::Unsat ==> res.core@.len() == 0)
        },
{
    let ls = crate::document::lines(stdout);
    proof {
        assert(strs(ls@) =~= lines_from(stdout@, 0));
        reveal_strlit("sat");
        reveal_strlit("unsat");
        reveal_strlit("unknown");
    }
    let first = if ls.len() > 0 {
        own(ls[0].as_str())
    } else {
        String::new()
    };
    proof {
        if ls@.len() > 0 {
            assert(lines_from(stdout@, 0)[0] == ls@[0]@);
        }
        assert(first@ == first_line(stdout@));
    }
    let sat = str_eq(first.as_str(), "sat");
    let unsat = str_eq(first.as_str(), "unsat");
    let unknown = str_eq(first.as_str(), "unknown");
    if !exit_ok && !(sat || unsat || unknown) {
        return Err(Error::SolverFailure(own(stderr)));
    }
    let (verdict, core) = if sat {
        (Verdict::Sat, Vec::new())
    } else if unsat {
        (Verdict::Unsat, parse_core(stdout))
    } else if unknown {
        if elapsed_ms >= timeout_ms {
            (Verdict::Timeout, Vec::new())
        } else {
            (Verdict::Unknown, Vec::new())
        }
    } else {
        (Verdict::SolverFailure, Vec::new())
    };
    Ok(BackendResult { verdict, core, solver_version: own(version), elapsed_ms, timeout_ms })
}

} // verus!
