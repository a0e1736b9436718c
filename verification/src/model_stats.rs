//! The explored-state statistics a TLC run prints: the generated, distinct and
//! remaining state counts, and the depth of the state graph search.
use vstd::prelude::*;
use crate::adr::strs;
use crate::document::{lines_from, strip_end};
use crate::evidence::mentions;
use crate::quint::ExploredStateStats;

verus! {

pub open spec fn is_digit(c: char) -> bool {
    '0' <= c && c <= '9'
}

/// The value of a run of decimal digits.
pub open spec fn digits_value(d: Seq<char>) -> nat
    decreases d.len(),
{
    if d.len() == 0 {
        0
    } else {
        digits_value(d.drop_last()) * 10 + ((d.last() as int) - ('0' as int)) as nat
    }
}

/// The end of the run of digits starting at `i`.
pub open spec fn digits_end(t: Seq<char>, i: int) -> int
    decreases t.len() - i,
{
    if 0 <= i < t.len() && is_digit(t[i]) {
        digits_end(t, i + 1)
    } else {
        i
    }
}

/// The numbers that the runs of digits of `t` from `i` on stand for, leaving out
/// those too large for a `u64` (splitting at every other character and parsing
/// each nonempty part).
pub open spec fn numbers_from(t: Seq<char>, i: int) -> Seq<u64>
    decreases t.len() - i,
{
    if i < 0 || i >= t.len() {
        Seq::empty()
    } else if !is_digit(t[i]) {
        numbers_from(t, i + 1)
    } else {
        let e = digits_end(t, i);
        if i < e <= t.len() {
            let v = digits_value(t.subrange(i, e));
            if v <= u64::MAX {
                seq![v as u64] + numbers_from(t, e)
            } else {
                numbers_from(t, e)
            }
        } else {
            Seq::empty()
        }
    }
}

/// The text after an optional leading `+`.
pub open spec fn unsigned_part(s: Seq<char>) -> Seq<char> {
    if s.len() > 0 && s[0] == '+' {
        s.drop_first()
    } else {
        s
    }
}

pub open spec fn all_digits(d: Seq<char>) -> bool {
    forall|k: int| 0 <= k < d.len() ==> is_digit(#[trigger] d[k])
}

/// `u64::from_str`: an optional `+`, then one or more digits whose value fits.
pub open spec fn parse_u64_text(s: Seq<char>) -> Option<u64> {
    let d = unsigned_part(s);
    if d.len() > 0 && all_digits(d) && digits_value(d) <= u64::MAX {
        Some(digits_value(d) as u64)
    } else {
        None
    }
}

pub open spec fn depth_prefix() -> Seq<char> {
    "The depth of the complete state graph search is "@
}

/// The statistics after reading lines `i..` of the output over `acc`: a line that
/// reports generated and distinct states with at least three numbers sets the three
/// counts from its first three numbers; a line that starts with the depth sentence
/// sets the depth from the rest of it, less trailing dots.
pub open spec fn stats_from(ls: Seq<Seq<char>>, i: int, acc: (Option<u64>, Option<u64>, Option<u64>, Option<u64>)) -> (Option<u64>, Option<u64>, Option<u64>, Option<u64>)
    decreases ls.len() - i,
{
    if i < 0 || i >= ls.len() {
        acc
    } else {
        let l = ls[i];
        let n = numbers_from(l, 0);
        let a1 = if mentions(l, " states generated, "@) && mentions(l, " distinct states found, "@) && n.len() >= 3 {
            (Some(n[0]), Some(n[1]), Some(n[2]), acc.3)
        } else {
            acc
        };
        let p = depth_prefix();
        let a2 = if p.len() <= l.len() && l.subrange(0, p.len() as int) == p {
            let rest = l.subrange(p.len() as int, l.len() as int);
            (a1.0, a1.1, a1.2, parse_u64_text(rest.subrange(0, strip_end(rest, 0, rest.len() as int, '.'))))
        } else {
            a1
        };
        stats_from(ls, i + 1, a2)
    }
}

proof fn lemma_digits_end(t: Seq<char>, i: int)
    requires
        0 <= i <= t.len(),
    ensures
        i <= digits_end(t, i) <= t.len(),
    decreases t.len() - i,
{
    if i < t.len() && is_digit(t[i]) {
        lemma_digits_end(t, i + 1);
    }
}

/// The value of `t[a..b]` when it fits in a `u64`.
fn run_value(t: &Vec<char>, a: usize, b: usize) -> (r: Option<u64>)
    requires
        a <= b <= t@.len(),
        forall|k: int| a <= k < b ==> is_digit(#[trigger] t@[k]),
    ensures
        r matches Some(v) ==> digits_value(t@.subrange(a as int, b as int)) == v,
        r is None ==> digits_value(t@.subrange(a as int, b as int)) > u64::MAX,
{
    let mut v: u64 = 0;
    let mut k: usize = a;
    proof {
        assert(t@.subrange(a as int, a as int) =~= Seq::<char>::empty());
    }
    while k < b
        invariant
            a <= k <= b <= t@.len(),
            forall|q: int| a <= q < b ==> is_digit(#[trigger] t@[q]),
            digits_value(t@.subrange(a as int, k as int)) == v,
        decreases b - k,
    {
        proof {
            assert(t@.subrange(a as int, k + 1).drop_last() =~= t@.subrange(a as int, k as int));
            assert(t@.subrange(a as int, k + 1).last() == t@[k as int]);
            assert(is_digit(t@[k as int]));
        }
        let d = (t[k] as u32 - '0' as u32) as u64;
        if v > (u64::MAX - d) / 10 {
            proof {
                assert(v * 10 + d > u64::MAX) by (nonlinear_arith)
                    requires
                        v > (u64::MAX - d) / 10,
                        d <= 9,
                ;
                lemma_digits_stay_large(t@, a as int, k + 1, b as int);
            }
            return None;
        }
        proof {
            assert(v * 10 + d <= u64::MAX) by (nonlinear_arith)
                requires
                    v <= (u64::MAX - d) / 10,
                    d <= 9,
            ;
        }
        v = v * 10 + d;
        k = k + 1;
    }
    Some(v)
}

proof fn lemma_digits_stay_large(t: Seq<char>, a: int, k: int, b: int)
    requires
        0 <= a <= k <= b <= t.len(),
        forall|q: int| a <= q < b ==> is_digit(#[trigger] t[q]),
        digits_value(t.subrange(a, k)) > u64::MAX,
    ensures
        digits_value(t.subrange(a, b)) > u64::MAX,
    decreases b - k,
{
    if k < b {
        let s1 = t.subrange(a, k + 1);
        assert(s1.len() == k + 1 - a);
        assert(s1.drop_last() =~= t.subrange(a, k));
        assert(s1.last() == t[k]);
        assert(is_digit(t[k]));
        assert(digits_value(s1) >= digits_value(t.subrange(a, k)));
        lemma_digits_stay_large(t, a, k + 1, b);
    }
}

/// The numbers of a line (see `numbers_from`).
fn numbers(line: &Vec<char>) -> (r: Vec<u64>)
    ensures
        r@ == numbers_from(line@, 0),
{
    let mut out: Vec<u64> = Vec::new();
    let mut i: usize = 0;
    while i < line.len()
        invariant
            i <= line@.len(),
            out@ + numbers_from(line@, i as int) == numbers_from(line@, 0),
        decreases line.len() - i,
    {
        if !(line[i] >= '0' && line[i] <= '9') {
            i = i + 1;
        } else {
            let mut e: usize = i;
            while e < line.len() && line[e] >= '0' && line[e] <= '9'
                invariant
                    i <= e <= line@.len(),
                    digits_end(line@, i as int) == digits_end(line@, e as int),
                    forall|k: int| i <= k < e ==> is_digit(#[trigger] line@[k]),
                decreases line.len() - e,
            {
                e = e + 1;
            }
            let ghost o0 = out@;
            match run_value(line, i, e) {
                Some(v) => {
                    out.push(v);
                    proof {
                        assert(o0.push(v) + numbers_from(line@, e as int) =~= o0 + (seq![v] + numbers_from(line@, e as int)));
                    }
                },
                None => {},
            }
            i = e;
        }
    }
    proof {
        assert(out@ + numbers_from(line@, i as int) =~= out@);
    }
    out
}

/// `u64::from_str` on `s[a..b]`.
pub(crate) fn parse_u64(s: &Vec<char>, a: usize, b: usize) -> (r: Option<u64>)
    requires
        a <= b <= s@.len(),
    ensures
        r == parse_u64_text(s@.subrange(a as int, b as int)),
{
    let ghost t = s@.subrange(a as int, b as int);
    let start = if a < b && s[a] == '+' {
        a + 1
    } else {
        a
    };
    let ghost d = s@.subrange(start as int, b as int);
    proof {
        if a < b && s@[a as int] == '+' {
            assert(t.drop_first() =~= d);
        } else {
            assert(t =~= d);
        }
    }
    if start == b {
        return None;
    }
    let mut k: usize = start;
    while k < b
        invariant
            start <= k <= b <= s@.len(),
            d == s@.subrange(start as int, b as int),
            t == s@.subrange(a as int, b as int),
            d == unsigned_part(t),
            forall|q: int| start <= q < k ==> is_digit(#[trigger] s@[q]),
        decreases b - k,
    {
        if !(s[k] >= '0' && s[k] <= '9') {
            proof {
                assert(d[k - start] == s@[k as int]);
                assert(!is_digit(d[k - start]));
                assert(!all_digits(d));
            }
            return None;
        }
        k = k + 1;
    }
    proof {
        assert forall|q: int| 0 <= q < d.len() implies is_digit(#[trigger] d[q]) by {
            assert(d[q] == s@[start + q]);
        };
    }
    run_value(s, start, b)
}

/// The explored-state statistics of a checker's output, with the run's duration.
pub fn parse_stats(output: &str, duration_ms: u128) -> (r: ExploredStateStats)
    ensures
        (r.generated_states, r.distinct_states, r.states_left, r.depth) == stats_from(lines_from(output@, 0), 0, (None, None, None, None)),
        r.duration_ms == duration_ms,
{
    let ls = crate::document::lines(output);
    let ghost L = lines_from(output@, 0);
    proof {
        assert(strs(ls@) =~= L);
        reveal_strlit(" states generated, ");
        reveal_strlit(" distinct states found, ");
        reveal_strlit("The depth of the complete state graph search is ");
    }
    let mut generated: Option<u64> = None;
    let mut distinct: Option<u64> = None;
    let mut left: Option<u64> = None;
    let mut depth: Option<u64> = None;
    let mut i: usize = 0;
    while i < ls.len()
        invariant
            i <= ls@.len(),
            strs(ls@) == L,
            stats_from(L, i as int, (generated, distinct, left, depth)) == stats_from(L, 0, (None, None, None, None)),
        decreases ls.len() - i,
    {
        let line = crate::text::chars_of(ls[i].as_str());
        proof {
            assert(L[i as int] == ls@[i as int]@);
        }
        let n = numbers(&line);
        if crate::evidence::mentions_exec(ls[i].as_str(), " states generated, ") && crate::evidence::mentions_exec(
            ls[i].as_str(),
            " distinct states found, ",
        ) && n.len() >= 3 {
            generated = Some(n[0]);
            distinct = Some(n[1]);
            left = Some(n[2]);
        }
        proof {
            reveal_strlit("The depth of the complete state graph search is ");
            reveal_strlit(" states generated, ");
            reveal_strlit(" distinct states found, ");
        }
        if crate::text::starts_with(ls[i].as_str(), "The depth of the complete state graph search is ") {
            let p: usize = 48;
            proof {
                assert(depth_prefix().len() == 48);
            }
            let end = strip_end_exec(&line, p, line.len(), '.');
            proof {
                let rest = line@.subrange(48, line@.len() as int);
                lemma_strip_shift(line@, 48, line@.len() as int, '.');
                assert(rest.subrange(0, strip_end(rest, 0, rest.len() as int, '.')) =~= line@.subrange(48, end as int));
            }
            depth = parse_u64(&line, p, end);
        }
        i = i + 1;
    }
    ExploredStateStats { generated_states: generated, distinct_states: distinct, states_left: left, depth, duration_ms }
}

fn strip_end_exec(s: &Vec<char>, lo: usize, hi: usize, c: char) -> (r: usize)
    requires
        lo <= hi <= s@.len(),
    ensures
        r == strip_end(s@, lo as int, hi as int, c),
        lo <= r <= hi,
{
    let mut b = hi;
    while b > lo && s[b - 1] == c
        invariant
            lo <= b <= hi <= s@.len(),
            strip_end(s@, lo as int, b as int, c) == strip_end(s@, lo as int, hi as int, c),
        decreases b - lo,
    {
        b = b - 1;
    }
    b
}

proof fn lemma_strip_shift(s: Seq<char>, lo: int, hi: int, c: char)
    requires
        0 <= lo <= hi <= s.len(),
    ensures
        strip_end(s, lo, hi, c) == lo + strip_end(s.subrange(lo, s.len() as int), 0, hi - lo, c),
        lo <= strip_end(s, lo, hi, c) <= hi,
    decreases hi - lo,
{
    if hi > lo {
        assert(s.subrange(lo, s.len() as int)[hi - lo - 1] == s[hi - 1]);
        lemma_strip_shift(s, lo, hi - 1, c);
    }
}

} // verus!
