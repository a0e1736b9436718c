//! ADR markdown documents: YAML-like front matter and fenced `adrlogic` blocks.
use vstd::prelude::*;
use crate::adr::{diag, parse_expression, Adr, Clause, Decl, Error, Status};
use crate::project::SourceSpan;
use crate::text::{cat3, chars_eq, chars_of, find_char, is_ascii_alnum, is_ascii_alnum_exec, is_ws, occurs_at, occurs_at_exec, own, slice_string, str_eq, trim, trim_bounds, trim_string};

verus! {

// ---------------------------------------------------------------------------
// Character-range helpers
// ---------------------------------------------------------------------------

/// Start index of `t` from `a` on after leading characters in `set`.
pub open spec fn set_start(t: Seq<char>, set: Seq<char>, a: int) -> int
    decreases t.len() - a,
{
    if 0 <= a < t.len() && set.contains(t[a]) {
        set_start(t, set, a + 1)
    } else {
        a
    }
}

/// End index of `t[lo..b]` before trailing characters in `set`, never below `lo`.
pub open spec fn set_end(t: Seq<char>, set: Seq<char>, lo: int, b: int) -> int
    decreases b - lo,
{
    if b > lo && set.contains(t[b - 1]) {
        set_end(t, set, lo, b - 1)
    } else {
        b
    }
}

/// `str::trim_matches` with a set of characters: every character of `set` removed
/// from both ends of `t`.
pub open spec fn trim_set(t: Seq<char>, set: Seq<char>) -> Seq<char> {
    let a = set_start(t, set, 0);
    t.subrange(a, set_end(t, set, a, t.len() as int))
}

/// Bounds of `s[lo..hi]` after removing, from both ends, every character in `set`.
pub(crate) fn trim_matches_bounds(s: &Vec<char>, lo: usize, hi: usize, set: &Vec<char>) -> (r: (usize, usize))
    requires
        lo <= hi <= s@.len(),
    ensures
        lo <= r.0 <= r.1 <= hi,
        s@.subrange(r.0 as int, r.1 as int) == trim_set(s@.subrange(lo as int, hi as int), set@),
{
    let ghost t = s@.subrange(lo as int, hi as int);
    let mut a = lo;
    while a < hi && contains_char(set, s[a])
        invariant
            lo <= a <= hi <= s@.len(),
            t == s@.subrange(lo as int, hi as int),
            set_start(t, set@, 0) == set_start(t, set@, a - lo),
        decreases hi - a,
    {
        a = a + 1;
    }
    proof {
        assert(set_start(t, set@, a - lo) == a - lo);
    }
    let mut b = hi;
    while b > a && contains_char(set, s[b - 1])
        invariant
            lo <= a <= b <= hi <= s@.len(),
            t == s@.subrange(lo as int, hi as int),
            set_start(t, set@, 0) == a - lo,
            set_end(t, set@, a - lo, t.len() as int) == set_end(t, set@, a - lo, b - lo),
        decreases b - a,
    {
        b = b - 1;
    }
    proof {
        assert(set_end(t, set@, a - lo, b - lo) == b - lo);
        assert(s@.subrange(a as int, b as int) =~= t.subrange(a - lo, b - lo));
    }
    (a, b)
}

/// Bounds of `s[lo..hi]` after removing every trailing `c`.
/// `hi` moved left past every trailing `c`, never below `lo`.
pub open spec fn strip_end(s: Seq<char>, lo: int, hi: int, c: char) -> int
    decreases hi - lo,
{
    if hi > lo && s[hi - 1] == c {
        strip_end(s, lo, hi - 1, c)
    } else {
        hi
    }
}

fn trim_end_char(s: &Vec<char>, lo: usize, hi: usize, c: char) -> (r: usize)
    requires
        lo <= hi <= s@.len(),
    ensures
        r == strip_end(s@, lo as int, hi as int, c),
        lo <= r <= hi,
        forall|k: int| r <= k < hi ==> s@[k] == c,
        r > lo ==> s@[r - 1] != c,
{
    let mut b = hi;
    while b > lo && s[b - 1] == c
        invariant
            lo <= b <= hi <= s@.len(),
            forall|k: int| b <= k < hi ==> s@[k] == c,
            strip_end(s@, lo as int, b as int, c) == strip_end(s@, lo as int, hi as int, c),
        decreases b - lo,
    {
        b = b - 1;
    }
    b
}

fn contains_char(set: &Vec<char>, c: char) -> (r: bool)
    ensures
        r == set@.contains(c),
{
    let mut i: usize = 0;
    while i < set.len()
        invariant
            i <= set@.len(),
            forall|j: int| 0 <= j < i ==> set@[j] != c,
        decreases set.len() - i,
    {
        if set[i] == c {
            return true;
        }
        i = i + 1;
    }
    false
}

/// Number of line feeds in `s[lo..hi]`.
pub open spec fn newlines_in(s: Seq<char>, lo: int, hi: int) -> nat
    decreases hi - lo,
{
    if hi <= lo {
        0
    } else {
        newlines_in(s, lo, hi - 1) + if s[hi - 1] == '\n' {
            1nat
        } else {
            0nat
        }
    }
}

/// Number of line feeds in `s[lo..hi]`.
fn count_newlines(s: &Vec<char>, lo: usize, hi: usize) -> (r: usize)
    requires
        lo <= hi <= s@.len(),
    ensures
        r == newlines_in(s@, lo as int, hi as int),
        r <= hi - lo,
{
    let mut n: usize = 0;
    let mut i = lo;
    while i < hi
        invariant
            lo <= i <= hi <= s@.len(),
            n == newlines_in(s@, lo as int, i as int),
            n <= i - lo,
        decreases hi - i,
    {
        if s[i] == '\n' {
            n = n + 1;
        }
        i = i + 1;
    }
    n
}

/// One piece of a list: trimmed of whitespace and of the characters in `quotes`,
/// and dropped when nothing is left.
pub open spec fn list_piece(x: Seq<char>, quotes: Seq<char>) -> Seq<Seq<char>> {
    let p = trim_set(trim(x), quotes);
    if p.len() > 0 {
        seq![p]
    } else {
        Seq::empty()
    }
}

/// The pieces of `s[start..hi]` split at `,`, in order.
pub open spec fn list_pieces(s: Seq<char>, start: int, hi: int, quotes: Seq<char>) -> Seq<Seq<char>>
    decreases hi - start,
{
    if start > hi {
        Seq::empty()
    } else {
        match crate::text::first_index_of(s, ',', start, hi) {
            Some(e) => if start <= e < hi {
                list_piece(s.subrange(start, e), quotes) + list_pieces(s, e + 1, hi, quotes)
            } else {
                Seq::empty()
            },
            None => list_piece(s.subrange(start, hi), quotes),
        }
    }
}

/// Splits `s[lo..hi]` at `,`, trims each piece of whitespace and of the characters in
/// `quotes`, and drops empty pieces.
fn split_list(s: &Vec<char>, lo: usize, hi: usize, quotes: &Vec<char>) -> (r: Vec<String>)
    requires
        lo <= hi <= s@.len(),
    ensures
        crate::adr::strs(r@) == list_pieces(s@, lo as int, hi as int, quotes@),
        forall|k: int| 0 <= k < r@.len() ==> (#[trigger] r@[k])@.len() > 0,
{
    let mut out: Vec<String> = Vec::new();
    let mut start = lo;
    loop
        invariant
            lo <= start <= hi <= s@.len(),
            crate::adr::strs(out@) + list_pieces(s@, start as int, hi as int, quotes@) == list_pieces(s@, lo as int, hi as int, quotes@),
            forall|k: int| 0 <= k < out@.len() ==> (#[trigger] out@[k])@.len() > 0,
        decreases hi - start,
    {
        let ghost o0 = out@;
        let end = match find_char(s, ',', start, hi) {
            Some(e) => e,
            None => hi,
        };
        let (a, b) = trim_bounds(s, start, end);
        let (c, d) = trim_matches_bounds(s, a, b, quotes);
        proof {
            assert(s@.subrange(c as int, d as int) == list_piece(s@.subrange(start as int, end as int), quotes@).first()
                || list_piece(s@.subrange(start as int, end as int), quotes@).len() == 0);
        }
        if c < d {
            out.push(slice_string(s, c, d));
            proof {
                assert(crate::adr::strs(out@) =~= crate::adr::strs(o0) + list_piece(s@.subrange(start as int, end as int), quotes@));
            }
        } else {
            proof {
                assert(list_piece(s@.subrange(start as int, end as int), quotes@) =~= Seq::<Seq<char>>::empty());
                assert(crate::adr::strs(out@) =~= crate::adr::strs(o0) + list_piece(s@.subrange(start as int, end as int), quotes@));
            }
        }
        if end >= hi {
            proof {
                assert(list_pieces(s@, start as int, hi as int, quotes@) == list_piece(s@.subrange(start as int, end as int), quotes@));
                assert(crate::adr::strs(out@) + list_pieces(s@, hi as int, hi as int, quotes@) =~= crate::adr::strs(out@));
            }
            return out;
        }
        proof {
            assert(list_pieces(s@, start as int, hi as int, quotes@) == list_piece(s@.subrange(start as int, end as int), quotes@)
                + list_pieces(s@, end + 1, hi as int, quotes@));
            assert(crate::adr::strs(out@) + list_pieces(s@, end + 1, hi as int, quotes@) =~= crate::adr::strs(o0)
                + list_pieces(s@, start as int, hi as int, quotes@));
        }
        start = end + 1;
    }
}

/// Index of the `}` that closes the `{` at `open`.
pub open spec fn brace_depth(s: Seq<char>, from: int, to: int) -> int
    decreases to - from,
{
    if to <= from {
        0
    } else {
        brace_depth(s, from, to - 1) + if s[to - 1] == '{' {
            1int
        } else if s[to - 1] == '}' {
            -1int
        } else {
            0int
        }
    }
}

/// The first index from `k` on holding a `}` at which the depth counted from `open`
/// returns to zero.
pub open spec fn close_from(s: Seq<char>, open: int, k: int) -> Option<int>
    decreases s.len() - k,
{
    if k < 0 || k >= s.len() {
        None
    } else if s[k] == '}' && brace_depth(s, open, k + 1) == 0 {
        Some(k)
    } else {
        close_from(s, open, k + 1)
    }
}

/// The index of the brace that closes the one opened at `open`: the first index at
/// which the running depth (counting from `open`) returns to zero on a `}`.
pub fn matching_brace(s: &Vec<char>, open: usize) -> (r: Option<usize>)
    requires
        open <= s@.len(),
    ensures
        r matches Some(c) ==> open <= c < s@.len() && s@[c as int] == '}' && brace_depth(
            s@,
            open as int,
            c + 1,
        ) == 0 && forall|k: int| open < k <= c ==> #[trigger] brace_depth(s@, open as int, k)
            != 0 || s@[k - 1] != '}',
        r is None ==> forall|k: int|
            open < k <= s@.len() && s@[k - 1] == '}' ==> #[trigger] brace_depth(s@, open as int, k)
                != 0,
        r matches Some(c) ==> close_from(s@, open as int, open as int) == Some(c as int),
        r is None ==> close_from(s@, open as int, open as int) is None,
{
    let mut depth: i128 = 0;
    let mut i = open;
    let len = s.len();
    while i < len
        invariant
            open <= i <= s@.len(),
            depth == brace_depth(s@, open as int, i as int),
            -(i - open) <= depth <= i - open,
            len == s@.len(),
            close_from(s@, open as int, open as int) == close_from(s@, open as int, i as int),
            forall|k: int| open < k <= i && s@[k - 1] == '}' ==> #[trigger] brace_depth(
                s@,
                open as int,
                k,
            ) != 0,
        decreases len - i,
    {
        let c = s[i];
        if c == '{' {
            depth = depth + 1;
        }
        if c == '}' {
            depth = depth - 1;
            if depth == 0 {
                return Some(i);
            }
        }
        i = i + 1;
    }
    None
}

/// Identifiers of `bool` declarations: nonempty ASCII letters, digits and `_`.
pub open spec fn is_ident(s: Seq<char>) -> bool {
    s.len() > 0 && forall|i: int| 0 <= i < s.len() ==> is_ascii_alnum(#[trigger] s[i]) || s[i] == '_'
}

pub fn validate_ident(s: &str, path: &str, line: usize) -> (r: Result<(), Error>)
    ensures
        r is Ok <==> is_ident(s@),
        r matches Err(e) ==> e matches Error::Diagnostic { path: p, line: l, .. } && p@ == path@ && l
            == line,
{
    let v = chars_of(s);
    let mut ok = v.len() > 0;
    let mut i: usize = 0;
    while i < v.len()
        invariant
            i <= v@.len(),
            v@ == s@,
            ok == (v@.len() > 0 && forall|j: int| 0 <= j < i ==> is_ascii_alnum(#[trigger] v@[j]) || v@[j] == '_'),
        decreases v.len() - i,
    {
        if !(is_ascii_alnum_exec(v[i]) || v[i] == '_') {
            ok = false;
        }
        i = i + 1;
    }
    if ok {
        Ok(())
    } else {
        let m = cat3("invalid identifier `", s, "`");
        Err(diag(path, line, 1, m.as_str()))
    }
}

/// The identifier (text before the first `"`, trimmed) and the description (text
/// between the first and the last `"`) of a rule header.
/// The last index before `end` holding `"`.
pub open spec fn last_quote(h: Seq<char>, end: int) -> Option<int>
    decreases end,
{
    if end <= 0 || end > h.len() {
        None
    } else if h[end - 1] == '"' {
        Some(end - 1)
    } else {
        last_quote(h, end - 1)
    }
}

/// The identifier and description of a rule header: the text before the first `"`,
/// trimmed, and the text between the first and the last `"`, which must differ.
pub open spec fn rule_header(h: Seq<char>) -> Option<(Seq<char>, Seq<char>)> {
    match crate::text::first_index_of(h, '"', 0, h.len() as int) {
        None => None,
        Some(q) => match last_quote(h, h.len() as int) {
            Some(e) => if q < e {
                Some((trim(h.subrange(0, q)), h.subrange(q + 1, e)))
            } else {
                None
            },
            None => None,
        },
    }
}

pub fn parse_rule_header(h: &Vec<char>, path: &str, line: usize) -> (r: Result<(String, String), Error>)
    ensures
        r is Ok <==> rule_header(h@) is Some,
        r matches Ok((id, d)) ==> rule_header(h@) == Some((id@, d@)),
        r matches Ok((id, d)) ==> exists|q: int, e: int|
            0 <= q < e < h@.len() && h@[q] == '"' && h@[e] == '"' && id@ == trim(h@.subrange(0, q))
                && d@ == h@.subrange(q + 1, e),
        r matches Err(e) ==> e matches Error::Diagnostic { path: p, line: l, .. } && p@ == path@ && l
            == line,
{
    let q = match find_char(h, '"', 0, h.len()) {
        Some(q) => q,
        None => return Err(diag(path, line, 1, "rule requires a quoted description")),
    };
    let mut end: usize = h.len();
    while end > 0 && h[end - 1] != '"'
        invariant
            end <= h@.len(),
            last_quote(h@, h@.len() as int) == last_quote(h@, end as int),
        decreases end,
    {
        end = end - 1;
    }
    if end == 0 || end - 1 <= q {
        return Err(diag(path, line, 1, "unterminated rule description"));
    }
    let e = end - 1;
    let (a, b) = trim_bounds(h, 0, q);
    let id = slice_string(h, a, b);
    let d = slice_string(h, q + 1, e);
    Ok((id, d))
}

// ---------------------------------------------------------------------------
// ADRLogic blocks
// ---------------------------------------------------------------------------

fn starts_at(s: &Vec<char>, i: usize, pat: &str) -> (r: bool)
    ensures
        r == occurs_at(s@, i as int, pat@),
{
    occurs_at_exec(s, i, pat)
}

/// The first index from `o` on that is not ASCII whitespace (or the end).
pub open spec fn skip_ws(s: Seq<char>, o: int) -> int
    decreases s.len() - o,
{
    if 0 <= o < s.len() && is_ws(s[o]) {
        skip_ws(s, o + 1)
    } else {
        o
    }
}

/// The views of a clause list.
pub open spec fn clause_views(c: Seq<Clause>) -> Seq<crate::adr::SClause> {
    c.map_values(|x: Clause| x@)
}

/// A one-element sequence for `Some`, an empty one for `None`.
pub open spec fn opt_seq<A>(o: Option<A>) -> Seq<A> {
    match o {
        Some(x) => seq![x],
        None => Seq::empty(),
    }
}

/// `name { a, b }` or `name(a, b)` after a keyword: the text from `from` to the `;`
/// at `end`, trimmed, split at the first `open` into the trimmed name and the list
/// before the trailing `close` characters.
pub open spec fn named_list(s: Seq<char>, from: int, end: int, open: char, close: char) -> Option<(Seq<char>, Seq<Seq<char>>)> {
    let a = crate::text::trim_lo(s, from, end);
    let b = crate::text::trim_hi(s, from, end);
    match crate::text::first_index_of(s, open, a, b) {
        None => None,
        Some(br) => Some((trim(s.subrange(a, br)), list_pieces(s, br + 1, strip_end(s, br + 1, b, close), Seq::empty()))),
    }
}

/// The item at `o` of a block, on line `line`: a declaration or a clause, and where
/// the next item may start. `bool N;`, `entity T { a, b };`, `relation R(A, B);` and
/// `rule ID "description" { expression }`.
pub open spec fn item_at(s: Seq<char>, o: int, line: usize, adr_id: Seq<char>, path: Seq<char>)
    -> Option<(Option<crate::adr::SDecl>, Option<crate::adr::SClause>, int)>
{
    if occurs_at(s, o, "bool "@) {
        match crate::text::first_index_of(s, ';', o, s.len() as int) {
            None => None,
            Some(end) => if end >= o + 5 && is_ident(trim(s.subrange(o + 5, end))) {
                Some((Some(crate::adr::SDecl::Bool(trim(s.subrange(o + 5, end)))), None, end + 1))
            } else {
                None
            },
        }
    } else if occurs_at(s, o, "entity "@) {
        match crate::text::first_index_of(s, ';', o, s.len() as int) {
            None => None,
            Some(end) => if end >= o + 7 {
                match named_list(s, o + 7, end, '{', '}') {
                    Some((name, members)) => Some((Some(crate::adr::SDecl::EntityType { name, members }), None, end + 1)),
                    None => None,
                }
            } else {
                None
            },
        }
    } else if occurs_at(s, o, "relation "@) {
        match crate::text::first_index_of(s, ';', o, s.len() as int) {
            None => None,
            Some(end) => if end >= o + 9 {
                match named_list(s, o + 9, end, '(', ')') {
                    Some((name, args)) => Some((Some(crate::adr::SDecl::Relation { name, args }), None, end + 1)),
                    None => None,
                }
            } else {
                None
            },
        }
    } else if occurs_at(s, o, "rule "@) {
        match crate::text::first_index_of(s, '{', o, s.len() as int) {
            None => None,
            Some(open) => match close_from(s, open, open) {
                None => None,
                Some(close) => if open >= o + 5 {
                    match rule_header(trim(s.subrange(o + 5, open))) {
                        None => None,
                        Some((id, description)) => {
                            let ea = crate::text::trim_lo(s, open + 1, close);
                            let eb = strip_end(s, ea, crate::text::trim_hi(s, open + 1, close), ';');
                            match crate::adr::expression_of(trim(s.subrange(ea, eb))) {
                                None => None,
                                Some(expression) => Some((
                                    None,
                                    Some(crate::adr::SClause { adr_id, id, description, filename: path, line, column: 1, expression }),
                                    close + 1,
                                )),
                            }
                        },
                    }
                } else {
                    None
                },
            },
        }
    } else {
        None
    }
}

/// The declarations and clauses of a block from `off` on, each item on the line
/// `base_line` plus the line feeds before it; `None` where an item is malformed or
/// a line number would not fit.
pub open spec fn logic_items(s: Seq<char>, off: int, base_line: int, adr_id: Seq<char>, path: Seq<char>)
    -> Option<(Seq<crate::adr::SDecl>, Seq<crate::adr::SClause>)>
    decreases s.len() - off,
{
    let o = skip_ws(s, off);
    if off < 0 || o >= s.len() {
        Some((Seq::empty(), Seq::empty()))
    } else if base_line + newlines_in(s, 0, o) > usize::MAX {
        None
    } else {
        match item_at(s, o, (base_line + newlines_in(s, 0, o)) as usize, adr_id, path) {
            None => None,
            Some((d, c, next)) => if off < next <= s.len() {
                match logic_items(s, next, base_line, adr_id, path) {
                    Some((ds, cs)) => Some((opt_seq(d) + ds, opt_seq(c) + cs)),
                    None => None,
                }
            } else {
                None
            },
        }
    }
}

/// The view of an optional declaration.
pub open spec fn opt_decl_view(d: Option<Decl>) -> Option<crate::adr::SDecl> {
    match d {
        Some(x) => Some(x@),
        None => None,
    }
}

/// The view of an optional clause.
pub open spec fn opt_clause_view(c: Option<Clause>) -> Option<crate::adr::SClause> {
    match c {
        Some(x) => Some(x@),
        None => None,
    }
}

/// The item of a block at `o` (not whitespace), on line `line`.
fn parse_item(s: &Vec<char>, o: usize, line: usize, path: &str, adr_id: &str) -> (r: Result<(Option<Decl>, Option<Clause>, usize), Error>)
    requires
        o < s@.len(),
    ensures
        r is Ok <==> item_at(s@, o as int, line, adr_id@, path@) is Some,
        r matches Ok((d, c, next)) ==> item_at(s@, o as int, line, adr_id@, path@) == Some((opt_decl_view(d), opt_clause_view(c), next as int))
            && o < next <= s@.len(),
        r matches Err(e) ==> e matches Error::Diagnostic { path: p, .. } && p@ == path@,
{
    let len = s.len();
    let semicolon_missing = "missing `;`";
    proof {
        lemma_first_index_in(s@, ';', o as int, len as int);
        lemma_first_index_in(s@, '{', o as int, len as int);
    }
    if starts_at(s, o, "bool ") {
        proof {
            reveal_strlit("bool ");
        }
        let end = match find_char(s, ';', o, len) {
            Some(e) => e,
            None => return Err(diag(path, line, 1, semicolon_missing)),
        };
        if end < o + 5 {
            return Err(diag(path, line, 1, semicolon_missing));
        }
        let (a, b) = trim_bounds(s, o + 5, end);
        let name = slice_string(s, a, b);
        match validate_ident(name.as_str(), path, line) {
            Ok(()) => {},
            Err(e) => return Err(e),
        }
        Ok((Some(Decl::Bool(name)), None, end + 1))
    } else if starts_at(s, o, "entity ") {
        proof {
            reveal_strlit("entity ");
            reveal_strlit("bool ");
        }
        let end = match find_char(s, ';', o, len) {
            Some(e) => e,
            None => return Err(diag(path, line, 1, semicolon_missing)),
        };
        if end < o + 7 {
            return Err(diag(path, line, 1, semicolon_missing));
        }
        let (a, b) = trim_bounds(s, o + 7, end);
        let brace = match find_char(s, '{', a, b) {
            Some(x) => x,
            None => return Err(diag(path, line, 1, "entity syntax: entity Type { a, b };")),
        };
        let (na, nb) = trim_bounds(s, a, brace);
        let name = slice_string(s, na, nb);
        let mend = trim_end_char(s, brace + 1, b, '}');
        let no_quotes: Vec<char> = Vec::new();
        proof {
            assert(no_quotes@ =~= Seq::<char>::empty());
        }
        let members = split_list(s, brace + 1, mend, &no_quotes);
        Ok((Some(Decl::EntityType { name, members }), None, end + 1))
    } else if starts_at(s, o, "relation ") {
        proof {
            reveal_strlit("relation ");
            reveal_strlit("entity ");
            reveal_strlit("bool ");
        }
        let end = match find_char(s, ';', o, len) {
            Some(e) => e,
            None => return Err(diag(path, line, 1, semicolon_missing)),
        };
        if end < o + 9 {
            return Err(diag(path, line, 1, semicolon_missing));
        }
        let (a, b) = trim_bounds(s, o + 9, end);
        let open = match find_char(s, '(', a, b) {
            Some(x) => x,
            None => return Err(diag(path, line, 1, "missing relation argument list")),
        };
        let (na, nb) = trim_bounds(s, a, open);
        let name = slice_string(s, na, nb);
        let aend = trim_end_char(s, open + 1, b, ')');
        let no_quotes: Vec<char> = Vec::new();
        proof {
            assert(no_quotes@ =~= Seq::<char>::empty());
        }
        let args = split_list(s, open + 1, aend, &no_quotes);
        Ok((Some(Decl::Relation { name, args }), None, end + 1))
    } else if starts_at(s, o, "rule ") {
        proof {
            reveal_strlit("rule ");
            reveal_strlit("relation ");
            reveal_strlit("entity ");
            reveal_strlit("bool ");
        }
        let open = match find_char(s, '{', o, len) {
            Some(x) => x,
            None => return Err(diag(path, line, 1, "missing rule body")),
        };
        let close = match matching_brace(s, open) {
            Some(x) => x,
            None => return Err(diag(path, line, 1, "unterminated rule body")),
        };
        if open < o + 5 {
            return Err(diag(path, line, 1, "missing rule body"));
        }
        let (ha, hb) = trim_bounds(s, o + 5, open);
        let header = crate::text::slice_chars(s, ha, hb);
        let (id, description) = match parse_rule_header(&header, path, line) {
            Ok(x) => x,
            Err(e) => return Err(e),
        };
        let (ea, eb) = trim_bounds(s, open + 1, close);
        let eb2 = trim_end_char(s, ea, eb, ';');
        let (xa, xb) = trim_bounds(s, ea, eb2);
        let expr_text = slice_string(s, xa, xb);
        let expression = match parse_expression(expr_text.as_str(), path, line) {
            Ok(e) => e,
            Err(e) => return Err(e),
        };
        let c = Clause {
            adr_id: own(adr_id),
            id,
            description,
            span: SourceSpan { filename: own(path), line, column: 1 },
            expression,
        };
        Ok((None, Some(c), close + 1))
    } else {
        proof {
            reveal_strlit("rule ");
            reveal_strlit("relation ");
            reveal_strlit("entity ");
            reveal_strlit("bool ");
        }
        Err(diag(path, line, 1, "expected bool, entity, relation, or rule"))
    }
}

/// Declarations and rules of one `adrlogic` block whose first line is `base_line`.
/// Declarations and clauses are appended in source order; each clause carries the ADR
/// id, the file and the line on which its `rule` keyword stands.
pub fn parse_logic(
    src: &str,
    path: &str,
    base_line: usize,
    adr_id: &str,
    decls: &mut Vec<Decl>,
    clauses: &mut Vec<Clause>,
) -> (r: Result<(), Error>)
    ensures
        r is Ok <==> logic_items(src@, 0, base_line as int, adr_id@, path@) is Some,
        r is Ok ==> logic_items(src@, 0, base_line as int, adr_id@, path@) == Some((
            crate::adr::decl_views(final(decls)@).skip(old(decls)@.len() as int),
            clause_views(final(clauses)@).skip(old(clauses)@.len() as int),
        )),
        final(decls)@.len() >= old(decls)@.len(),
        final(clauses)@.len() >= old(clauses)@.len(),
        forall|k: int| 0 <= k < old(clauses)@.len() ==> final(clauses)@[k] == old(clauses)@[k],
        forall|k: int| 0 <= k < old(decls)@.len() ==> final(decls)@[k] == old(decls)@[k],
        forall|k: int|
            old(clauses)@.len() <= k < final(clauses)@.len() ==> (#[trigger] final(clauses)@[k]).adr_id@
                == adr_id@ && final(clauses)@[k].span.filename@ == path@ && final(clauses)@[k].span.column
                == 1 && final(clauses)@[k].span.line >= base_line,
        r matches Err(e) ==> e matches Error::Diagnostic { path: p, .. } && p@ == path@,
{
    let s = chars_of(src);
    let len = s.len();
    let mut offset: usize = 0;
    let ghost whole = logic_items(src@, 0, base_line as int, adr_id@, path@);
    let ghost d0 = old(decls)@.len() as int;
    let ghost c0 = old(clauses)@.len() as int;
    proof {
        assert(crate::adr::decl_views(decls@).skip(d0) =~= Seq::<crate::adr::SDecl>::empty());
        assert(clause_views(clauses@).skip(c0) =~= Seq::<crate::adr::SClause>::empty());
    }
    while offset < len
        invariant
            offset <= len,
            len == s@.len(),
            s@ == src@,
            d0 == old(decls)@.len(),
            c0 == old(clauses)@.len(),
            whole == logic_items(src@, 0, base_line as int, adr_id@, path@),
            whole == match logic_items(s@, offset as int, base_line as int, adr_id@, path@) {
                Some((ds, cs)) => Some((crate::adr::decl_views(decls@).skip(d0) + ds, clause_views(clauses@).skip(c0) + cs)),
                None => None,
            },
            decls@.len() >= old(decls)@.len(),
            clauses@.len() >= old(clauses)@.len(),
            forall|k: int| 0 <= k < old(clauses)@.len() ==> clauses@[k] == old(clauses)@[k],
            forall|k: int| 0 <= k < old(decls)@.len() ==> decls@[k] == old(decls)@[k],
            forall|k: int|
                old(clauses)@.len() <= k < clauses@.len() ==> (#[trigger] clauses@[k]).adr_id@
                    == adr_id@ && clauses@[k].span.filename@ == path@
                    && clauses@[k].span.column == 1 && clauses@[k].span.line
                    >= base_line,
        ensures
            offset == len,
        decreases len - offset,
    {
        let ghost start = offset;
        while offset < len && crate::text::is_ws_exec(s[offset])
            invariant
                start <= offset <= len,
                len == s@.len(),
                skip_ws(s@, start as int) == skip_ws(s@, offset as int),
            decreases len - offset,
        {
            offset = offset + 1;
        }
        if offset == len {
            proof {
                assert(crate::adr::decl_views(decls@).skip(d0) + Seq::<crate::adr::SDecl>::empty() =~= crate::adr::decl_views(decls@).skip(d0));
                assert(clause_views(clauses@).skip(c0) + Seq::<crate::adr::SClause>::empty() =~= clause_views(clauses@).skip(c0));
            }
            break;
        }
        let newlines = count_newlines(&s, 0, offset);
        if base_line > usize::MAX - newlines {
            return Err(diag(path, base_line, 1, "block is too long"));
        }
        let line = base_line + newlines;
        let (d, c, next) = match parse_item(&s, offset, line, path, adr_id) {
            Ok(x) => x,
            Err(e) => return Err(e),
        };
        let ghost dv0 = crate::adr::decl_views(decls@);
        let ghost cv0 = clause_views(clauses@);
        let ghost dd = opt_decl_view(d);
        let ghost cc = opt_clause_view(c);
        match d {
            Some(x) => {
                decls.push(x);
            },
            None => {},
        }
        match c {
            Some(x) => {
                clauses.push(x);
            },
            None => {},
        }
        proof {
            assert(crate::adr::decl_views(decls@).skip(d0) =~= dv0.skip(d0) + opt_seq(dd));
            assert(clause_views(clauses@).skip(c0) =~= cv0.skip(c0) + opt_seq(cc));
            match logic_items(s@, next as int, base_line as int, adr_id@, path@) {
                Some((ds, cs)) => {
                    assert(dv0.skip(d0) + (opt_seq(dd) + ds) =~= dv0.skip(d0) + opt_seq(dd) + ds);
                    assert(cv0.skip(c0) + (opt_seq(cc) + cs) =~= cv0.skip(c0) + opt_seq(cc) + cs);
                },
                None => {},
            }
        }
        offset = next;
    }
    proof {
        assert(logic_items(s@, offset as int, base_line as int, adr_id@, path@) == Some((Seq::<crate::adr::SDecl>::empty(), Seq::<crate::adr::SClause>::empty())));
        assert(crate::adr::decl_views(decls@).skip(d0) + Seq::<crate::adr::SDecl>::empty() =~= crate::adr::decl_views(decls@).skip(d0));
        assert(clause_views(clauses@).skip(c0) + Seq::<crate::adr::SClause>::empty() =~= clause_views(clauses@).skip(c0));
    }
    Ok(())
}

// ---------------------------------------------------------------------------
// Lines
// ---------------------------------------------------------------------------

/// The lines of `s` from index `i`, as `str::lines` yields them: split at `\n`, a `\r`
/// directly before the `\n` removed, and no empty line after a final `\n`.
pub open spec fn lines_from(s: Seq<char>, i: int) -> Seq<Seq<char>>
    decreases s.len() - i,
{
    if i < 0 || i >= s.len() {
        Seq::empty()
    } else {
        match crate::text::first_index_of(s, '\n', i, s.len() as int) {
            Some(j) => {
                let line = if j > i && s[j - 1] == '\r' {
                    s.subrange(i, j - 1)
                } else {
                    s.subrange(i, j)
                };
                if i < j + 1 <= s.len() {
                    seq![line] + lines_from(s, j + 1)
                } else {
                    Seq::empty()
                }
            },
            None => seq![s.subrange(i, s.len() as int)],
        }
    }
}

proof fn lemma_first_index_bounds(s: Seq<char>, c: char, from: int, to: int)
    requires
        0 <= from,
        to <= s.len(),
    ensures
        crate::text::first_index_of(s, c, from, to) matches Some(j) ==> from <= j < to && s[j] == c,
    decreases to - from,
{
    if from < to && s[from] != c {
        lemma_first_index_bounds(s, c, from + 1, to);
    }
}

/// The lines of a text (`str::lines`).
pub fn lines(text: &str) -> (r: Vec<String>)
    ensures
        r@.map_values(|l: String| l@) == lines_from(text@, 0),
{
    let s = chars_of(text);
    let len = s.len();
    let mut out: Vec<String> = Vec::new();
    let mut i: usize = 0;
    while i < len
        invariant
            i <= len,
            len == s@.len(),
            s@ == text@,
            out@.map_values(|l: String| l@) + lines_from(s@, i as int) == lines_from(s@, 0),
        decreases len - i,
    {
        let ghost before = out@;
        proof {
            lemma_first_index_bounds(s@, '\n', i as int, len as int);
        }
        match find_char(&s, '\n', i, len) {
            Some(j) => {
                let e = if j > i && s[j - 1] == '\r' {
                    j - 1
                } else {
                    j
                };
                let line = slice_string(&s, i, e);
                out.push(line);
                proof {
                    assert(lines_from(s@, i as int) == seq![line@] + lines_from(s@, j + 1));
                    assert(out@.map_values(|l: String| l@) =~= before.map_values(|l: String| l@).push(
                        line@,
                    ));
                    assert(out@.map_values(|l: String| l@) + lines_from(s@, j + 1) =~= before.map_values(
                        |l: String| l@,
                    ) + lines_from(s@, i as int));
                }
                i = j + 1;
            },
            None => {
                let line = slice_string(&s, i, len);
                out.push(line);
                proof {
                    assert(lines_from(s@, i as int) == seq![line@]);
                    assert(lines_from(s@, len as int) =~= Seq::<Seq<char>>::empty());
                    assert(out@.map_values(|l: String| l@) =~= before.map_values(|l: String| l@).push(
                        line@,
                    ));
                    assert(out@.map_values(|l: String| l@) + lines_from(s@, len as int) =~= before.map_values(
                        |l: String| l@,
                    ) + lines_from(s@, i as int));
                }
                i = len;
            },
        }
    }
    proof {
        assert(out@.map_values(|l: String| l@) + lines_from(s@, i as int) =~= out@.map_values(
            |l: String| l@,
        ));
    }
    out
}


// ---------------------------------------------------------------------------
// Front matter and documents
// ---------------------------------------------------------------------------

/// Metadata of the front matter: each key with its list of values, in first-seen order;
/// a key given again replaces its values.
pub struct Meta {
    pub entries: Vec<(String, Vec<String>)>,
}

/// The first index from `i` on of an entry named `key`.
pub open spec fn entry_index(e: Seq<(String, Vec<String>)>, key: Seq<char>, i: int) -> Option<int>
    decreases e.len() - i,
{
    if i < 0 || i >= e.len() {
        None
    } else if e[i].0@ == key {
        Some(i)
    } else {
        entry_index(e, key, i + 1)
    }
}

proof fn lemma_entry_index_bounds(e: Seq<(String, Vec<String>)>, key: Seq<char>, i: int)
    requires
        0 <= i,
    ensures
        entry_index(e, key, i) matches Some(k) ==> i <= k < e.len() && e[k].0@ == key,
    decreases e.len() - i,
{
    if i < e.len() && e[i].0@ != key {
        lemma_entry_index_bounds(e, key, i + 1);
    }
}

fn find_entry(e: &Vec<(String, Vec<String>)>, key: &str) -> (r: Option<usize>)
    ensures
        r matches Some(k) ==> entry_index(e@, key@, 0) == Some(k as int) && k < e@.len() && e@[k as int].0@ == key@,
        r is None ==> entry_index(e@, key@, 0) is None,
{
    let mut i: usize = 0;
    while i < e.len()
        invariant
            i <= e@.len(),
            entry_index(e@, key@, 0) == entry_index(e@, key@, i as int),
        decreases e.len() - i,
    {
        if str_eq(e[i].0.as_str(), key) {
            return Some(i);
        }
        i = i + 1;
    }
    None
}

impl Meta {
    /// Values of `key` (its first entry), if present.
    pub fn get(&self, key: &str) -> (r: Option<&Vec<String>>)
        ensures
            r matches Some(v) ==> exists|i: int| entry_index(self.entries@, key@, 0) == Some(i) && 0 <= i < self.entries@.len()
                && self.entries@[i].0@ == key@ && self.entries@[i].1 == *v,
            r is None ==> entry_index(self.entries@, key@, 0) is None,
            r is None ==> forall|i: int| 0 <= i < self.entries@.len() ==> self.entries@[i].0@ != key@,
    {
        match find_entry(&self.entries, key) {
            Some(k) => Some(&self.entries[k].1),
            None => {
                proof {
                    assert forall|i: int| 0 <= i < self.entries@.len() implies self.entries@[i].0@ != key@ by {
                        if self.entries@[i].0@ == key@ {
                            lemma_entry_absent(self.entries@, key@, 0, i);
                        }
                    };
                }
                None
            },
        }
    }

    /// A copy of the values of `key` (its first entry), or no values.
    pub fn values(&self, key: &str) -> (r: Vec<String>)
        ensures
            r@ == match entry_index(self.entries@, key@, 0) {
                Some(k) => self.entries@[k].1@,
                None => Seq::empty(),
            },
    {
        match self.get(key) {
            Some(v) => crate::project::clone_strings(v),
            None => Vec::new(),
        }
    }

    /// Replaces the values of the first entry named `key`, or adds an entry for it.
    fn set(&mut self, key: String, values: Vec<String>)
        ensures
            final(self).entries@ == match entry_index(old(self).entries@, key@, 0) {
                Some(k) => old(self).entries@.update(k, (key, values)),
                None => old(self).entries@.push((key, values)),
            },
    {
        match find_entry(&self.entries, key.as_str()) {
            Some(k) => {
                self.entries.set(k, (key, values));
            },
            None => {
                self.entries.push((key, values));
            },
        }
    }

    /// Appends `value` to the values of the first entry named `key`, or adds an entry
    /// for `key` holding `value` alone.
    fn push_value(&mut self, key: &str, value: String)
        ensures
            match entry_index(old(self).entries@, key@, 0) {
                Some(k) => {
                    &&& final(self).entries@.len() == old(self).entries@.len()
                    &&& final(self).entries@[k].0@ == key@
                    &&& final(self).entries@[k].1@ == old(self).entries@[k].1@.push(value)
                    &&& forall|j: int| 0 <= j < old(self).entries@.len() && j != k ==> final(self).entries@[j] == old(self).entries@[j]
                },
                None => {
                    &&& final(self).entries@.len() == old(self).entries@.len() + 1
                    &&& final(self).entries@.drop_last() == old(self).entries@
                    &&& final(self).entries@.last().0@ == key@
                    &&& final(self).entries@.last().1@ == seq![value]
                },
            },
    {
        match find_entry(&self.entries, key) {
            Some(k) => {
                let mut values = crate::project::clone_strings(&self.entries[k].1);
                values.push(value);
                let kk = own(key);
                self.entries.set(k, (kk, values));
            },
            None => {
                let mut values: Vec<String> = Vec::new();
                values.push(value);
                self.entries.push((own(key), values));
                proof {
                    assert(values@ =~= seq![value]);
                }
            },
        }
    }
}

proof fn lemma_entry_absent(e: Seq<(String, Vec<String>)>, key: Seq<char>, i: int, j: int)
    requires
        0 <= i <= j < e.len(),
        e[j].0@ == key,
    ensures
        entry_index(e, key, i) is Some,
    decreases j - i,
{
    if e[i].0@ != key {
        lemma_entry_absent(e, key, i + 1, j);
    }
}

fn quote_chars() -> (r: Vec<char>)
    ensures
        r@ == seq!['\'', '"'],
{
    let mut v: Vec<char> = Vec::new();
    v.push('\'');
    v.push('"');
    proof {
        assert(v@ =~= seq!['\'', '"']);
    }
    v
}

fn bracket_chars() -> (r: Vec<char>)
    ensures
        r@ == seq!['[', ']'],
{
    let mut v: Vec<char> = Vec::new();
    v.push('[');
    v.push(']');
    proof {
        assert(v@ =~= seq!['[', ']']);
    }
    v
}

/// The entries of front matter as text: each key with its values.
pub open spec fn meta_view(e: Seq<(String, Vec<String>)>) -> Seq<(Seq<char>, Seq<Seq<char>>)> {
    e.map_values(|x: (String, Vec<String>)| (x.0@, crate::adr::strs(x.1@)))
}

/// The first index from `i` on of an entry named `key`, over entries as text.
pub open spec fn key_index(v: Seq<(Seq<char>, Seq<Seq<char>>)>, key: Seq<char>, i: int) -> Option<int>
    decreases v.len() - i,
{
    if i < 0 || i >= v.len() {
        None
    } else if v[i].0 == key {
        Some(i)
    } else {
        key_index(v, key, i + 1)
    }
}

/// `key`'s values replaced (its first entry), or an entry added for it.
pub open spec fn view_set(v: Seq<(Seq<char>, Seq<Seq<char>>)>, key: Seq<char>, vals: Seq<Seq<char>>) -> Seq<(Seq<char>, Seq<Seq<char>>)> {
    match key_index(v, key, 0) {
        Some(j) => v.update(j, (key, vals)),
        None => v.push((key, vals)),
    }
}

/// `x` appended to `key`'s values (its first entry), or an entry added for it.
pub open spec fn view_push(v: Seq<(Seq<char>, Seq<Seq<char>>)>, key: Seq<char>, x: Seq<char>) -> Seq<(Seq<char>, Seq<Seq<char>>)> {
    match key_index(v, key, 0) {
        Some(j) => v.update(j, (key, v[j].1.push(x))),
        None => v.push((key, seq![x])),
    }
}

/// The items of a list text: split at `,`, each trimmed of whitespace and quotes,
/// empty items dropped.
pub open spec fn list_items(w: Seq<char>) -> Seq<Seq<char>> {
    list_pieces(w, 0, w.len() as int, seq!['\'', '"'])
}

/// Front matter read from line `i` to `end` (exclusive) on, starting from the
/// entries `v` and the key `list_key` that a `- item` line adds to: a blank line is
/// skipped; `- item` adds the item (trimmed of whitespace and quotes) to the last
/// key, and is an error on line `i + 1` when no key came before; another indented
/// line is skipped; `key: values` sets the key to the bracketed, comma-separated
/// values, and a line with no `:` is an error on line `i + 1`.
pub open spec fn meta_lines(
    lines: Seq<Seq<char>>,
    i: int,
    end: int,
    v: Seq<(Seq<char>, Seq<Seq<char>>)>,
    list_key: Option<Seq<char>>,
) -> Result<Seq<(Seq<char>, Seq<Seq<char>>)>, int>
    decreases end - i,
{
    if i >= end || i < 0 || end > lines.len() {
        Ok(v)
    } else {
        let l = lines[i];
        let t = trim(l);
        if t.len() == 0 {
            meta_lines(lines, i + 1, end, v, list_key)
        } else if t.len() >= 2 && t[0] == '-' && t[1] == ' ' {
            match list_key {
                None => Err(i + 1),
                Some(k) => meta_lines(
                    lines,
                    i + 1,
                    end,
                    view_push(v, k, trim_set(trim(t.subrange(2, t.len() as int)), seq!['\'', '"'])),
                    list_key,
                ),
            }
        } else if l.len() > 0 && l[0] == ' ' {
            meta_lines(lines, i + 1, end, v, list_key)
        } else {
            match crate::text::first_index_of(l, ':', 0, l.len() as int) {
                None => Err(i + 1),
                Some(c) => {
                    let key = trim(l.subrange(0, c));
                    let vals = list_items(trim_set(trim(l.subrange(c + 1, l.len() as int)), seq!['[', ']']));
                    meta_lines(lines, i + 1, end, view_set(v, key, vals), Some(key))
                },
            }
        }
    }
}

proof fn lemma_first_index_shift(s: Seq<char>, c: char, a: int, b: int, from: int)
    requires
        0 <= a <= from <= b <= s.len(),
    ensures
        crate::text::first_index_of(s, c, from, b) matches Some(e) ==> crate::text::first_index_of(s.subrange(a, b), c, from - a, b - a) == Some(e - a),
        crate::text::first_index_of(s, c, from, b) is None ==> crate::text::first_index_of(s.subrange(a, b), c, from - a, b - a) is None,
    decreases b - from,
{
    if from < b {
        lemma_first_index_shift(s, c, a, b, from + 1);
    }
}

proof fn lemma_first_index_in(s: Seq<char>, c: char, from: int, to: int)
    ensures
        crate::text::first_index_of(s, c, from, to) matches Some(e) ==> from <= e < to,
    decreases to - from,
{
    if from < to && s[from] != c {
        lemma_first_index_in(s, c, from + 1, to);
    }
}

/// The pieces of `s[a..b]` are those of that text on its own.
proof fn lemma_list_pieces_shift(s: Seq<char>, a: int, start: int, b: int, q: Seq<char>)
    requires
        0 <= a <= start <= b <= s.len(),
    ensures
        list_pieces(s, start, b, q) == list_pieces(s.subrange(a, b), start - a, b - a, q),
    decreases b - start,
{
    let t = s.subrange(a, b);
    lemma_first_index_shift(s, ',', a, b, start);
    lemma_first_index_in(s, ',', start, b);
    match crate::text::first_index_of(s, ',', start, b) {
        Some(e) => {
            assert(s.subrange(start, e) =~= t.subrange(start - a, e - a));
            lemma_list_pieces_shift(s, a, e + 1, b, q);
        },
        None => {
            assert(s.subrange(start, b) =~= t.subrange(start - a, b - a));
        },
    }
}

/// The text of an optional string.
pub open spec fn opt_text(o: Option<String>) -> Option<Seq<char>> {
    match o {
        Some(k) => Some(k@),
        None => None,
    }
}

proof fn lemma_key_index(e: Seq<(String, Vec<String>)>, key: Seq<char>, i: int)
    requires
        0 <= i,
    ensures
        key_index(meta_view(e), key, i) == entry_index(e, key, i),
    decreases e.len() - i,
{
    if i < e.len() {
        lemma_key_index(e, key, i + 1);
    }
}

proof fn lemma_dash_line(line: Seq<char>, l: Seq<char>, ta: int, tb: int, dash: bool)
    requires
        line == l,
        0 <= ta <= tb <= line.len(),
        line.subrange(ta, tb) == trim(l),
        dash == (occurs_at(line, ta, "- "@) && tb - ta >= 2),
    ensures
        dash == (trim(l).len() >= 2 && trim(l)[0] == '-' && trim(l)[1] == ' '),
{
    reveal_strlit("- ");
    let t = trim(l);
    if t.len() >= 2 {
        assert(t[0] == line[ta] && t[1] == line[ta + 1]);
        if t[0] == '-' && t[1] == ' ' {
            assert(line.subrange(ta, ta + 2) =~= "- "@);
        }
        if occurs_at(line, ta, "- "@) {
            assert(line.subrange(ta, ta + 2)[0] == line[ta]);
            assert(line.subrange(ta, ta + 2)[1] == line[ta + 1]);
        }
    }
}

proof fn lemma_push_view(e0: Seq<(String, Vec<String>)>, e1: Seq<(String, Vec<String>)>, kv: Seq<char>, iv: String)
    requires
        match entry_index(e0, kv, 0) {
            Some(k) => {
                &&& e1.len() == e0.len()
                &&& e1[k].0@ == kv
                &&& e1[k].1@ == e0[k].1@.push(iv)
                &&& forall|j: int| 0 <= j < e0.len() && j != k ==> e1[j] == e0[j]
            },
            None => {
                &&& e1.len() == e0.len() + 1
                &&& e1.drop_last() == e0
                &&& e1.last().0@ == kv
                &&& e1.last().1@ == seq![iv]
            },
        },
    ensures
        meta_view(e1) == view_push(meta_view(e0), kv, iv@),
{
    lemma_key_index(e0, kv, 0);
    lemma_entry_index_bounds(e0, kv, 0);
    match entry_index(e0, kv, 0) {
        Some(k) => {
            assert(crate::adr::strs(e1[k].1@) =~= crate::adr::strs(e0[k].1@).push(iv@));
            assert(meta_view(e1) =~= view_push(meta_view(e0), kv, iv@));
        },
        None => {
            assert(crate::adr::strs(seq![iv]) =~= seq![iv@]);
            assert(e1 =~= e0.push(e1.last()));
            assert(meta_view(e1) =~= view_push(meta_view(e0), kv, iv@));
        },
    }
}

proof fn lemma_set_view(e0: Seq<(String, Vec<String>)>, e1: Seq<(String, Vec<String>)>, kv: Seq<char>, vv: Seq<String>)
    requires
        exists|key: String, values: Vec<String>| key@ == kv && values@ == vv && e1 == match entry_index(e0, kv, 0) {
            Some(k) => e0.update(k, (key, values)),
            None => e0.push((key, values)),
        },
    ensures
        meta_view(e1) == view_set(meta_view(e0), kv, crate::adr::strs(vv)),
{
    lemma_key_index(e0, kv, 0);
    lemma_entry_index_bounds(e0, kv, 0);
    assert(meta_view(e1) =~= view_set(meta_view(e0), kv, crate::adr::strs(vv)));
}

/// Parses the front matter lines `lines[1..end]`.
fn parse_meta(lines: &Vec<String>, end: usize, path: &str) -> (r: Result<Meta, Error>)
    requires
        1 <= end <= lines@.len(),
    ensures
        r is Ok <==> meta_lines(crate::adr::strs(lines@), 1, end as int, Seq::empty(), None) is Ok,
        r matches Ok(m) ==> meta_lines(crate::adr::strs(lines@), 1, end as int, Seq::empty(), None) == Ok::<_, int>(meta_view(m.entries@)),
        r matches Err(e) ==> e matches Error::Diagnostic { path: p, line: l, .. } && p@ == path@
            && meta_lines(crate::adr::strs(lines@), 1, end as int, Seq::empty(), None) == Err::<Seq<(Seq<char>, Seq<Seq<char>>)>, int>(l as int),
{
    let mut meta = Meta { entries: Vec::new() };
    let mut list_key: Option<String> = None;
    let quotes = quote_chars();
    let brackets = bracket_chars();
    let ghost whole = meta_lines(crate::adr::strs(lines@), 1, end as int, Seq::empty(), None);
    proof {
        assert(meta_view(meta.entries@) =~= Seq::<(Seq<char>, Seq<Seq<char>>)>::empty());
    }
    let mut i: usize = 1;
    while i < end
        invariant
            1 <= i <= end <= lines@.len(),
            quotes@ == seq!['\'', '"'],
            brackets@ == seq!['[', ']'],
            whole == meta_lines(crate::adr::strs(lines@), 1, end as int, Seq::empty(), None),
            whole == meta_lines(crate::adr::strs(lines@), i as int, end as int, meta_view(meta.entries@), opt_text(list_key)),
        decreases end - i,
    {
        let ghost v0 = meta_view(meta.entries@);
        let ghost e0 = meta.entries@;
        let line = chars_of(lines[i].as_str());
        let (ta, tb) = trim_bounds(&line, 0, line.len());
        proof {
            assert(line@.subrange(0, line@.len() as int) =~= line@);
        }
        if ta == tb {
            i = i + 1;
            continue;
        }
        let dash = occurs_at_exec(&line, ta, "- ") && tb - ta >= 2;
        proof {
            assert(crate::adr::strs(lines@)[i as int] == lines@[i as int]@);
            lemma_dash_line(line@, lines@[i as int]@, ta as int, tb as int, dash);
        }
        if dash {
            let key = match &list_key {
                Some(k) => k,
                None => {
                    return Err(diag(path, i + 1, 1, "list item has no preceding metadata key"));
                },
            };
            let (ia, ib) = trim_bounds(&line, ta + 2, tb);
            let (qa, qb) = trim_matches_bounds(&line, ia, ib, &quotes);
            let item = slice_string(&line, qa, qb);
            proof {
                let t = trim(lines@[i as int]@);
                assert(t.subrange(2, t.len() as int) =~= line@.subrange(ta + 2, tb as int));
            }
            let ghost kv = key@;
            let ghost iv = item;
            meta.push_value(key.as_str(), item);
            proof {
                lemma_push_view(e0, meta.entries@, kv, iv);
            }
            i = i + 1;
            continue;
        }
        if line.len() > 0 && line[0] == ' ' {
            i = i + 1;
            continue;
        }
        let colon = match find_char(&line, ':', 0, line.len()) {
            Some(c) => c,
            None => {
                return Err(diag(path, i + 1, 1, "invalid front matter entry"));
            },
        };
        let (va, vb) = trim_bounds(&line, colon + 1, line.len());
        let (ba, bb) = trim_matches_bounds(&line, va, vb, &brackets);
        let values = split_list(&line, ba, bb, &quotes);
        let (ka, kb) = trim_bounds(&line, 0, colon);
        let key = slice_string(&line, ka, kb);
        proof {
            lemma_list_pieces_shift(line@, ba as int, ba as int, bb as int, quotes@);
            assert(crate::adr::strs(values@) == list_items(trim_set(trim(line@.subrange(colon + 1, line@.len() as int)), seq!['[', ']'])));
        }
        list_key = Some(key.clone());
        let ghost kv = key@;
        let ghost vv = values@;
        meta.set(key, values);
        proof {
            lemma_set_view(e0, meta.entries@, kv, vv);
        }
        i = i + 1;
    }
    Ok(meta)
}

/// `true` when the first line of the text is exactly `---`.
pub open spec fn has_front_matter(text: Seq<char>) -> bool {
    lines_from(text, 0).len() > 0 && lines_from(text, 0)[0] == "---"@
}

/// The first value of the first entry named `key`, if it has one.
fn first_value(meta: &Meta, key: &str) -> (r: Option<String>)
    ensures
        r == match entry_index(meta.entries@, key@, 0) {
            Some(k) => if meta.entries@[k].1@.len() > 0 {
                Some(meta.entries@[k].1@[0])
            } else {
                None
            },
            None => None,
        },
{
    match meta.get(key) {
        Some(v) => {
            if v.len() > 0 {
                Some(v[0].clone())
            } else {
                None
            }
        },
        None => None,
    }
}

/// The specification-level view of an ADR.
pub struct SAdr {
    pub id: Seq<char>,
    pub status: Status,
    pub supersedes: Seq<Seq<char>>,
    pub amends: Seq<Seq<char>>,
    pub exception_to: Seq<Seq<char>>,
    pub clauses: Seq<crate::adr::SClause>,
    pub declarations: Seq<crate::adr::SDecl>,
}

pub open spec fn adr_view(a: Adr) -> SAdr {
    SAdr {
        id: a.id@,
        status: a.status,
        supersedes: crate::adr::strs(a.supersedes@),
        amends: crate::adr::strs(a.amends@),
        exception_to: crate::adr::strs(a.exception_to@),
        clauses: clause_views(a.clauses@),
        declarations: crate::adr::decl_views(a.declarations@),
    }
}

/// The first line from `k` on that is exactly `---`.
pub open spec fn close_line(ls: Seq<Seq<char>>, k: int) -> Option<int>
    decreases ls.len() - k,
{
    if k < 0 || k >= ls.len() {
        None
    } else if ls[k] == "---"@ {
        Some(k)
    } else {
        close_line(ls, k + 1)
    }
}

/// The first line from `k` on that is `` ``` `` once trimmed.
pub open spec fn code_fence(ls: Seq<Seq<char>>, k: int) -> Option<int>
    decreases ls.len() - k,
{
    if k < 0 || k >= ls.len() {
        None
    } else if trim(ls[k]) == "```"@ {
        Some(k)
    } else {
        code_fence(ls, k + 1)
    }
}

/// Lines `a..b`, each followed by a line feed.
pub open spec fn block_text(ls: Seq<Seq<char>>, a: int, b: int) -> Seq<char>
    decreases b - a,
{
    if b <= a {
        Seq::empty()
    } else {
        block_text(ls, a, b - 1) + ls[b - 1] + "\n"@
    }
}

/// The first value of `key`'s first entry, if it has one.
pub open spec fn meta_first(v: Seq<(Seq<char>, Seq<Seq<char>>)>, key: Seq<char>) -> Option<Seq<char>> {
    match key_index(v, key, 0) {
        Some(k) => if v[k].1.len() > 0 {
            Some(v[k].1[0])
        } else {
            None
        },
        None => None,
    }
}

/// The values of `key`'s first entry, or none.
pub open spec fn meta_all(v: Seq<(Seq<char>, Seq<Seq<char>>)>, key: Seq<char>) -> Seq<Seq<char>> {
    match key_index(v, key, 0) {
        Some(k) => v[k].1,
        None => Seq::empty(),
    }
}

/// The status a front matter value names.
pub open spec fn status_named(t: Option<Seq<char>>) -> Option<Status> {
    match t {
        Some(x) => if x == "proposed"@ {
            Some(Status::Proposed)
        } else if x == "accepted"@ {
            Some(Status::Accepted)
        } else if x == "deprecated"@ {
            Some(Status::Deprecated)
        } else if x == "superseded"@ {
            Some(Status::Superseded)
        } else {
            None
        },
        None => None,
    }
}

/// The declarations and clauses of the `adrlogic` blocks from line `i` on: a line
/// `` ```adrlogic `` (trimmed) opens a block whose text is the lines up to the next
/// `` ``` `` line, each with its line feed, and whose first line is numbered `i + 2`.
pub open spec fn blocks_from(ls: Seq<Seq<char>>, i: int, id: Seq<char>, path: Seq<char>)
    -> Option<(Seq<crate::adr::SDecl>, Seq<crate::adr::SClause>)>
    decreases ls.len() - i,
{
    if i < 0 || i >= ls.len() {
        Some((Seq::empty(), Seq::empty()))
    } else if trim(ls[i]) == "```adrlogic"@ {
        if i > usize::MAX - 2 {
            None
        } else {
            match code_fence(ls, i + 1) {
                None => None,
                Some(j) => if i < j < ls.len() {
                    match logic_items(block_text(ls, i + 1, j), 0, i + 2, id, path) {
                        None => None,
                        Some((ds, cs)) => match blocks_from(ls, j + 1, id, path) {
                            Some((ds2, cs2)) => Some((ds + ds2, cs + cs2)),
                            None => None,
                        },
                    }
                } else {
                    None
                },
            }
        }
    } else {
        blocks_from(ls, i + 1, id, path)
    }
}

/// The ADR a document holds: front matter between a first line `---` and the next
/// `---` line gives the id (first value of `id`), the status and the references;
/// the `adrlogic` blocks after it give declarations and rules.
pub open spec fn adr_of(path: Seq<char>, text: Seq<char>) -> Option<SAdr> {
    let ls = lines_from(text, 0);
    if !has_front_matter(text) {
        None
    } else {
        match close_line(ls, 1) {
            None => None,
            Some(end) => match meta_lines(ls, 1, end, Seq::empty(), None) {
                Err(_) => None,
                Ok(v) => match meta_first(v, "id"@) {
                    None => None,
                    Some(id) => match status_named(meta_first(v, "status"@)) {
                        None => None,
                        Some(status) => match blocks_from(ls, end + 1, id, path) {
                            None => None,
                            Some((declarations, clauses)) => Some(SAdr {
                                id,
                                status,
                                supersedes: meta_all(v, "supersedes"@),
                                amends: meta_all(v, "amends"@),
                                exception_to: meta_all(v, "exception_to"@),
                                clauses,
                                declarations,
                            }),
                        },
                    },
                },
            },
        }
    }
}

/// The text of the block opened before line `entry`: its lines up to the closing
/// fence (or the end), each with a line feed, and where it stopped.
fn fenced_text(ls: &Vec<String>, entry: usize) -> (r: (Vec<char>, usize))
    requires
        entry <= ls@.len(),
    ensures
        entry <= r.1 <= ls@.len(),
        r.0@ == block_text(crate::adr::strs(ls@), entry as int, r.1 as int),
        r.1 < ls@.len() ==> code_fence(crate::adr::strs(ls@), entry as int) == Some(r.1 as int),
        r.1 == ls@.len() ==> code_fence(crate::adr::strs(ls@), entry as int) is None,
{
    let ghost L = crate::adr::strs(ls@);
    let mut i = entry;
    let mut block: Vec<char> = Vec::new();
    proof {
        reveal_strlit("```");
        assert(block@ =~= block_text(L, entry as int, entry as int));
    }
    while i < ls.len() && !str_eq(trim_string(ls[i].as_str()).as_str(), "```")
        invariant
            entry <= i <= ls@.len(),
            L == crate::adr::strs(ls@),
            block@ == block_text(L, entry as int, i as int),
            code_fence(L, entry as int) == code_fence(L, i as int),
        decreases ls.len() - i,
    {
        proof {
            assert(L[i as int] == ls@[i as int]@);
        }
        let lc = chars_of(ls[i].as_str());
        let ghost b0 = block@;
        let mut k: usize = 0;
        while k < lc.len()
            invariant
                k <= lc@.len(),
                block@ == b0 + lc@.subrange(0, k as int),
            decreases lc.len() - k,
        {
            block.push(lc[k]);
            proof {
                assert(block@ =~= b0 + lc@.subrange(0, k + 1));
            }
            k = k + 1;
        }
        block.push('\n');
        proof {
            reveal_strlit("\n");
            assert(lc@.subrange(0, lc@.len() as int) =~= lc@);
            assert(block@ =~= block_text(L, entry as int, i + 1));
        }
        i = i + 1;
    }
    proof {
        if i < ls@.len() {
            assert(L[i as int] == ls@[i as int]@);
        }
    }
    (block, i)
}

/// The declarations and clauses of the `adrlogic` blocks from line `from` on.
fn parse_blocks(ls: &Vec<String>, from: usize, id: &str, path: &str) -> (r: Result<(Vec<Decl>, Vec<Clause>), Error>)
    requires
        from <= ls@.len(),
    ensures
        r is Ok <==> blocks_from(crate::adr::strs(ls@), from as int, id@, path@) is Some,
        r matches Ok((ds, cs)) ==> blocks_from(crate::adr::strs(ls@), from as int, id@, path@) == Some((crate::adr::decl_views(ds@), clause_views(cs@))),
        r matches Ok((ds, cs)) ==> forall|k: int| 0 <= k < cs@.len() ==> (#[trigger] cs@[k]).adr_id@ == id@ && cs@[k].span.filename@ == path@,
        r matches Err(e) ==> e matches Error::Diagnostic { path: p, .. } && p@ == path@,
{
    let ghost L = crate::adr::strs(ls@);
    let mut declarations: Vec<Decl> = Vec::new();
    let mut clauses: Vec<Clause> = Vec::new();
    let ghost whole = blocks_from(L, from as int, id@, path@);
    proof {
        assert(crate::adr::decl_views(declarations@) =~= Seq::<crate::adr::SDecl>::empty());
        assert(clause_views(clauses@) =~= Seq::<crate::adr::SClause>::empty());
        assert(Seq::<crate::adr::SDecl>::empty() + Seq::<crate::adr::SDecl>::empty() =~= Seq::<crate::adr::SDecl>::empty());
    }
    let mut i = from;
    while i < ls.len()
        invariant
            from <= i <= ls@.len() + 1,
            L == crate::adr::strs(ls@),
            whole == blocks_from(L, from as int, id@, path@),
            whole == match blocks_from(L, i as int, id@, path@) {
                Some((ds, cs)) => Some((crate::adr::decl_views(declarations@) + ds, clause_views(clauses@) + cs)),
                None => None,
            },
            forall|k: int| 0 <= k < clauses@.len() ==> (#[trigger] clauses@[k]).adr_id@ == id@ && clauses@[k].span.filename@ == path@,
        decreases ls@.len() + 1 - i,
    {
        let t = trim_string(ls[i].as_str());
        proof {
            assert(L[i as int] == ls@[i as int]@);
            reveal_strlit("```adrlogic");
        }
        if str_eq(t.as_str(), "```adrlogic") {
            if i > usize::MAX - 2 {
                return Err(diag(path, i, 1, "unterminated adrlogic block"));
            }
            let start = i + 2;
            let (block, close) = fenced_text(ls, i + 1);
            if close == ls.len() {
                return Err(diag(path, start, 1, "unterminated adrlogic block"));
            }
            let text_block = crate::text::string_from_chars(block.as_slice());
            let ghost dv0 = crate::adr::decl_views(declarations@);
            let ghost cv0 = clause_views(clauses@);
            let ghost dl = declarations@.len() as int;
            let ghost cl = clauses@.len() as int;
            match parse_logic(text_block.as_str(), path, start, id, &mut declarations, &mut clauses) {
                Ok(()) => {},
                Err(e) => return Err(e),
            }
            proof {
                assert(crate::adr::decl_views(declarations@) =~= dv0 + crate::adr::decl_views(declarations@).skip(dl));
                assert(clause_views(clauses@) =~= cv0 + clause_views(clauses@).skip(cl));
                let (ds, cs) = logic_items(block@, 0, start as int, id@, path@)->0;
                match blocks_from(L, close + 1, id@, path@) {
                    Some((ds2, cs2)) => {
                        assert(dv0 + (ds + ds2) =~= crate::adr::decl_views(declarations@) + ds2);
                        assert(cv0 + (cs + cs2) =~= clause_views(clauses@) + cs2);
                    },
                    None => {},
                }
            }
            i = close;
        }
        i = i + 1;
    }
    proof {
        assert(crate::adr::decl_views(declarations@) + Seq::<crate::adr::SDecl>::empty() =~= crate::adr::decl_views(declarations@));
        assert(clause_views(clauses@) + Seq::<crate::adr::SClause>::empty() =~= clause_views(clauses@));
    }
    Ok((declarations, clauses))
}

/// Parses one ADR markdown document: the front matter gives `id`, `status` and the
/// `supersedes`/`amends`/`exception_to` references; every fenced `adrlogic` block in
/// the body contributes declarations and rules.
pub fn parse_adr(path: &str, text: &str) -> (r: Result<Adr, Error>)
    ensures
        r is Ok <==> adr_of(path@, text@) is Some,
        r matches Ok(adr) ==> adr_of(path@, text@) == Some(adr_view(adr)),
        !has_front_matter(text@) ==> (r matches Err(Error::Diagnostic { line: l, message: m, .. }) && l
            == 1 && m@ == "ADR must start with YAML front matter"@),
        r matches Err(e) ==> e matches Error::Diagnostic { path: p, .. } && p@ == path@,
        r matches Ok(adr) ==> forall|k: int| 0 <= k < adr.clauses@.len() ==> (#[trigger] adr.clauses@[k]).adr_id@ == adr.id@ && adr.clauses@[k].span.filename@ == path@,
{
    let ls = lines(text);
    let ghost L = lines_from(text@, 0);
    proof {
        assert(crate::adr::strs(ls@) =~= L);
        assert(ls@.len() == lines_from(text@, 0).len());
        if ls@.len() > 0 {
            assert(ls@[0]@ == lines_from(text@, 0)[0]);
        }
    }
    if ls.len() == 0 || !str_eq(ls[0].as_str(), "---") {
        return Err(diag(path, 1, 1, "ADR must start with YAML front matter"));
    }
    proof {
        assert(has_front_matter(text@));
    }
    let mut end: usize = 1;
    while end < ls.len() && !str_eq(ls[end].as_str(), "---")
        invariant
            1 <= end <= ls@.len(),
            crate::adr::strs(ls@) == L,
            close_line(L, 1) == close_line(L, end as int),
        decreases ls.len() - end,
    {
        proof {
            assert(L[end as int] == ls@[end as int]@);
        }
        end = end + 1;
    }
    if end == ls.len() {
        return Err(diag(path, 1, 1, "unterminated front matter"));
    }
    proof {
        assert(L[end as int] == ls@[end as int]@);
        assert(close_line(L, 1) == Some(end as int));
    }
    let meta = match parse_meta(&ls, end, path) {
        Ok(m) => m,
        Err(e) => return Err(e),
    };
    let ghost v = meta_view(meta.entries@);
    proof {
        reveal_strlit("id");
        reveal_strlit("status");
        lemma_key_index(meta.entries@, "id"@, 0);
        lemma_key_index(meta.entries@, "status"@, 0);
        lemma_key_index(meta.entries@, "supersedes"@, 0);
        lemma_key_index(meta.entries@, "amends"@, 0);
        lemma_key_index(meta.entries@, "exception_to"@, 0);
        lemma_entry_index_bounds(meta.entries@, "id"@, 0);
        lemma_entry_index_bounds(meta.entries@, "status"@, 0);
        lemma_entry_index_bounds(meta.entries@, "supersedes"@, 0);
        lemma_entry_index_bounds(meta.entries@, "amends"@, 0);
        lemma_entry_index_bounds(meta.entries@, "exception_to"@, 0);
    }
    let id = match first_value(&meta, "id") {
        Some(v) => v,
        None => return Err(diag(path, 2, 1, "missing ADR id")),
    };
    proof {
        assert(meta_first(v, "id"@) == Some(id@));
    }
    let status_text = first_value(&meta, "status");
    proof {
        assert(meta_first(v, "status"@) == opt_text(status_text));
        reveal_strlit("proposed");
        reveal_strlit("accepted");
        reveal_strlit("deprecated");
        reveal_strlit("superseded");
    }
    let status = match status_text {
        Some(v) => {
            if str_eq(v.as_str(), "proposed") {
                Status::Proposed
            } else if str_eq(v.as_str(), "accepted") {
                Status::Accepted
            } else if str_eq(v.as_str(), "deprecated") {
                Status::Deprecated
            } else if str_eq(v.as_str(), "superseded") {
                Status::Superseded
            } else {
                return Err(
                    diag(path, 2, 1, "status must be proposed, accepted, deprecated, or superseded"),
                );
            }
        },
        None => {
            return Err(
                diag(path, 2, 1, "status must be proposed, accepted, deprecated, or superseded"),
            );
        },
    };
    proof {
        assert(status_named(meta_first(v, "status"@)) == Some(status));
    }
    let (declarations, clauses) = match parse_blocks(&ls, end + 1, id.as_str(), path) {
        Ok(x) => x,
        Err(e) => return Err(e),
    };
    let supersedes = meta.values("supersedes");
    let amends = meta.values("amends");
    let exception_to = meta.values("exception_to");
    proof {
        reveal_strlit("supersedes");
        reveal_strlit("amends");
        reveal_strlit("exception_to");
        assert(crate::adr::strs(supersedes@) == meta_all(v, "supersedes"@));
        assert(crate::adr::strs(amends@) == meta_all(v, "amends"@));
        assert(crate::adr::strs(exception_to@) == meta_all(v, "exception_to"@));
        assert(meta_lines(L, 1, end as int, Seq::empty(), None) == Ok::<_, int>(v));
        assert(blocks_from(L, end + 1, id@, path@) == Some((crate::adr::decl_views(declarations@), clause_views(clauses@))));
    }
    Ok(Adr {
        id,
        status,
        supersedes,
        amends,
        exception_to,
        clauses,
        declarations,
    })
}

/// Every ADR of `adrs` has its clauses located in the document it was read from.
pub open spec fn read_from(documents: Seq<(String, String)>, adrs: Seq<Adr>) -> bool {
    &&& adrs.len() == documents.len()
    &&& forall|i: int, k: int| 0 <= i < adrs.len() && 0 <= k < adrs[i].clauses@.len() ==> (#[trigger] adrs[i].clauses@[k]).adr_id@
        == adrs[i].id@ && adrs[i].clauses@[k].span.filename@ == documents[i].0@
}

/// Parses ADR documents given as `(path, text)` pairs, in the given order; the first
/// document that fails to parse decides the error.
/// Every document holds an ADR, and `adrs` are those ADRs in order.
pub open spec fn parsed_as(documents: Seq<(String, String)>, adrs: Seq<Adr>) -> bool {
    &&& adrs.len() == documents.len()
    &&& forall|i: int| 0 <= i < documents.len() ==> adr_of((#[trigger] documents[i]).0@, documents[i].1@) == Some(adr_view(adrs[i]))
}

/// Every document holds an ADR.
pub open spec fn all_parse(documents: Seq<(String, String)>) -> bool {
    forall|i: int| 0 <= i < documents.len() ==> adr_of((#[trigger] documents[i]).0@, documents[i].1@) is Some
}

pub fn load_adrs(documents: &Vec<(String, String)>) -> (r: Result<Vec<Adr>, Error>)
    ensures
        r is Ok <==> all_parse(documents@),
        r matches Ok(adrs) ==> parsed_as(documents@, adrs@),
        r matches Ok(adrs) ==> read_from(documents@, adrs@),
        (exists|i: int| 0 <= i < documents@.len() && !has_front_matter((#[trigger] documents@[i]).1@)) ==> r is Err,
        r matches Err(e) ==> exists|i: int| 0 <= i < documents@.len() && (e matches Error::Diagnostic { path: p, .. } && p@ == (#[trigger] documents@[i]).0@),
{
    let mut out: Vec<Adr> = Vec::new();
    let mut i: usize = 0;
    while i < documents.len()
        invariant
            i <= documents@.len(),
            read_from(documents@.take(i as int), out@),
            parsed_as(documents@.take(i as int), out@),
            forall|j: int| 0 <= j < i ==> has_front_matter((#[trigger] documents@[j]).1@),
        decreases documents.len() - i,
    {
        let (p, t) = &documents[i];
        match parse_adr(p.as_str(), t.as_str()) {
            Ok(a) => {
                let ghost o0 = out@;
                out.push(a);
                proof {
                    assert forall|q: int, k: int| 0 <= q < out@.len() && 0 <= k < out@[q].clauses@.len() implies (#[trigger] out@[q].clauses@[k]).adr_id@
                        == out@[q].id@ && out@[q].clauses@[k].span.filename@ == documents@.take(i + 1)[q].0@ by {
                        if q < i {
                            assert(o0[q] == out@[q]);
                            assert(documents@.take(i as int)[q] == documents@.take(i + 1)[q]);
                        }
                    };
                    assert forall|q: int| 0 <= q < i + 1 implies adr_of((#[trigger] documents@.take(i + 1)[q]).0@, documents@.take(i + 1)[q].1@) == Some(adr_view(out@[q])) by {
                        if q < i {
                            assert(o0[q] == out@[q]);
                            assert(documents@.take(i as int)[q] == documents@.take(i + 1)[q]);
                        }
                    };
                }
            },
            Err(e) => {
                proof {
                    assert(documents@[i as int].0@ == p@);
                    assert(!all_parse(documents@));
                }
                return Err(e);
            },
        }
        i = i + 1;
    }
    proof {
        assert(documents@.take(documents@.len() as int) =~= documents@);
        assert forall|j: int| 0 <= j < documents@.len() implies adr_of((#[trigger] documents@[j]).0@, documents@[j].1@) is Some by {
            assert(documents@.take(documents@.len() as int)[j] == documents@[j]);
        };
    }
    Ok(out)
}

} // verus!
