//! The three roots of a verification (project, specification, state) and the
//! logical, location-independent identities of the files below them.
use vstd::prelude::*;
use crate::adr::strs;
use crate::text::{cat, cat3, chars_of, find_char, first_index_of, occurs_at, occurs_at_exec, own, slice_string, str_eq};

verus! {

/// Where a verification reads and writes.
#[derive(Debug)]
pub struct VerificationRoots {
    pub project_root: String,
    pub specification_root: String,
    pub state_root: String,
}

/// The roots as reported.
#[derive(Debug)]
pub struct RootsView {
    pub project_root: String,
    pub specification_root: String,
    pub state_root: String,
}

/// An input file with its logical identity.
#[derive(Debug)]
pub struct SemanticInput {
    pub identity: String,
    pub path: String,
}

impl Clone for SemanticInput {
    fn clone(&self) -> (r: Self)
        ensures
            r == *self,
    {
        SemanticInput { identity: self.identity.clone(), path: self.path.clone() }
    }
}

// ---------------------------------------------------------------------------
// Paths
// ---------------------------------------------------------------------------

/// A path component that names something (`.` and empty pieces do not).
pub open spec fn named(x: Seq<char>) -> Seq<Seq<char>> {
    if x.len() == 0 || x == "."@ {
        Seq::empty()
    } else {
        seq![x]
    }
}

/// The named components of `p` from index `i`: the pieces between `/`s.
pub open spec fn components_from(p: Seq<char>, i: int) -> Seq<Seq<char>>
    decreases p.len() - i,
{
    if i < 0 || i >= p.len() {
        Seq::empty()
    } else {
        match first_index_of(p, '/', i, p.len() as int) {
            Some(j) => if i <= j < p.len() {
                named(p.subrange(i, j)) + components_from(p, j + 1)
            } else {
                Seq::empty()
            },
            None => named(p.subrange(i, p.len() as int)),
        }
    }
}

pub open spec fn components(p: Seq<char>) -> Seq<Seq<char>> {
    components_from(p, 0)
}

pub open spec fn is_absolute(p: Seq<char>) -> bool {
    p.len() > 0 && p[0] == '/'
}

/// The items joined with `/`.
pub open spec fn join_slash(s: Seq<Seq<char>>) -> Seq<char>
    decreases s.len(),
{
    if s.len() == 0 {
        Seq::empty()
    } else if s.len() == 1 {
        s[0]
    } else {
        join_slash(s.drop_last()) + "/"@ + s.last()
    }
}

proof fn lemma_first_index(s: Seq<char>, c: char, from: int, to: int)
    requires
        0 <= from,
        to <= s.len(),
    ensures
        first_index_of(s, c, from, to) matches Some(j) ==> from <= j < to && s[j] == c,
    decreases to - from,
{
    if from < to && s[from] != c {
        lemma_first_index(s, c, from + 1, to);
    }
}

fn named_exec(s: &Vec<char>, from: usize, to: usize, out: &mut Vec<String>)
    requires
        from <= to <= s@.len(),
    ensures
        strs(final(out)@) == strs(old(out)@) + named(s@.subrange(from as int, to as int)),
{
    let x = slice_string(s, from, to);
    let is_dot = str_eq(x.as_str(), ".");
    let ghost o0 = out@;
    if to > from && !is_dot {
        out.push(x);
        proof {
            assert(strs(out@) =~= strs(o0) + seq![x@]);
        }
    } else {
        proof {
            assert(strs(out@) =~= strs(o0) + Seq::<Seq<char>>::empty());
        }
    }
}

/// The named components of a path.
pub fn path_components(p: &str) -> (r: Vec<String>)
    ensures
        strs(r@) == components(p@),
{
    let s = chars_of(p);
    let len = s.len();
    let mut out: Vec<String> = Vec::new();
    let mut i: usize = 0;
    while i < len
        invariant
            i <= len,
            len == s@.len(),
            s@ == p@,
            strs(out@) + components_from(s@, i as int) == components_from(s@, 0),
        decreases len - i,
    {
        let ghost before = out@;
        proof {
            lemma_first_index(s@, '/', i as int, len as int);
        }
        match find_char(&s, '/', i, len) {
            Some(j) => {
                named_exec(&s, i, j, &mut out);
                proof {
                    assert(components_from(s@, i as int) == named(s@.subrange(i as int, j as int)) + components_from(s@, j + 1));
                    assert(strs(out@) + components_from(s@, j + 1) =~= strs(before) + components_from(s@, i as int));
                }
                i = j + 1;
            },
            None => {
                named_exec(&s, i, len, &mut out);
                proof {
                    assert(components_from(s@, len as int) =~= Seq::<Seq<char>>::empty());
                    assert(strs(out@) + components_from(s@, len as int) =~= strs(before) + components_from(s@, i as int));
                }
                i = len;
            },
        }
    }
    proof {
        assert(strs(out@) + components_from(s@, i as int) =~= strs(out@));
    }
    out
}

pub(crate) fn join_slash_exec(v: &Vec<String>) -> (r: String)
    ensures
        r@ == join_slash(strs(v@)),
{
    let mut r = String::new();
    let mut i: usize = 0;
    while i < v.len()
        invariant
            i <= v@.len(),
            r@ == join_slash(strs(v@.take(i as int))),
        decreases v.len() - i,
    {
        proof {
            assert(strs(v@.take(i + 1)).drop_last() =~= strs(v@.take(i as int)));
            assert(strs(v@.take(i + 1)).last() == v@[i as int]@);
        }
        if i == 0 {
            r = v[0].clone();
        } else {
            r.append("/");
            r.append(v[i].as_str());
        }
        i = i + 1;
    }
    proof {
        assert(v@.take(v@.len() as int) =~= v@);
    }
    r
}

/// `p` made absolute against `cwd`, with `..` resolved lexically.
pub open spec fn normalized(p: Seq<char>, cwd: Seq<char>) -> Seq<char> {
    let absolute = if is_absolute(p) {
        components(p)
    } else {
        components(cwd) + components(p)
    };
    "/"@ + join_slash(resolve_parents(absolute))
}

/// Components with each `..` removing the component before it.
pub open spec fn resolve_parents(c: Seq<Seq<char>>) -> Seq<Seq<char>>
    decreases c.len(),
{
    if c.len() == 0 {
        Seq::empty()
    } else {
        let prev = resolve_parents(c.drop_last());
        if c.last() == ".."@ {
            if prev.len() == 0 {
                prev
            } else {
                prev.drop_last()
            }
        } else {
            prev.push(c.last())
        }
    }
}

fn append_all(dst: &mut Vec<String>, src: &Vec<String>)
    ensures
        final(dst)@ == old(dst)@ + src@,
{
    let mut i: usize = 0;
    while i < src.len()
        invariant
            i <= src@.len(),
            dst@ == old(dst)@ + src@.take(i as int),
        decreases src.len() - i,
    {
        dst.push(src[i].clone());
        proof {
            assert(src@.take(i + 1) =~= src@.take(i as int).push(src@[i as int]));
        }
        i = i + 1;
    }
    proof {
        assert(src@.take(src@.len() as int) =~= src@);
    }
}

/// The absolute, lexically normalized form of a path (relative paths are taken
/// against the working directory `cwd`).
pub fn normalize(p: &str, cwd: &str) -> (r: String)
    ensures
        r@ == normalized(p@, cwd@),
{
    let pc = chars_of(p);
    let mut all: Vec<String> = Vec::new();
    if !(pc.len() > 0 && pc[0] == '/') {
        let c = path_components(cwd);
        append_all(&mut all, &c);
    }
    let own_parts = path_components(p);
    append_all(&mut all, &own_parts);
    proof {
        assert(strs(all@) == if is_absolute(p@) { components(p@) } else { components(cwd@) + components(p@) }) by {
            assert(strs(all@) =~= if is_absolute(p@) { strs(own_parts@) } else { components(cwd@) + strs(own_parts@) });
        };
    }
    let mut stack: Vec<String> = Vec::new();
    let mut i: usize = 0;
    while i < all.len()
        invariant
            i <= all@.len(),
            strs(stack@) == resolve_parents(strs(all@.take(i as int))),
        decreases all.len() - i,
    {
        proof {
            assert(strs(all@.take(i + 1)).drop_last() =~= strs(all@.take(i as int)));
            assert(strs(all@.take(i + 1)).last() == all@[i as int]@);
        }
        let ghost s0 = stack@;
        if str_eq(all[i].as_str(), "..") {
            if stack.len() > 0 {
                stack.pop();
                proof {
                    assert(strs(stack@) =~= strs(s0).drop_last());
                }
            }
        } else {
            stack.push(all[i].clone());
            proof {
                assert(strs(stack@) =~= strs(s0).push(all@[i as int]@));
            }
        }
        i = i + 1;
    }
    proof {
        assert(all@.take(all@.len() as int) =~= all@);
    }
    let j = join_slash_exec(&stack);
    cat("/", j.as_str())
}

// ---------------------------------------------------------------------------
// Identities
// ---------------------------------------------------------------------------

/// The components of `path` below `root`, when `root` is a component prefix of it.
pub open spec fn below(root: Seq<char>, path: Seq<char>) -> Option<Seq<Seq<char>>> {
    let rc = components(root);
    let pc = components(path);
    if is_absolute(root) == is_absolute(path) && rc.len() <= pc.len() && pc.subrange(0, rc.len() as int) == rc {
        Some(pc.subrange(rc.len() as int, pc.len() as int))
    } else {
        None
    }
}

/// `namespace:relative/path`: the path relative to the root when it lies below it,
/// otherwise the path's own components.
pub open spec fn identity_of(namespace: Seq<char>, root: Seq<char>, path: Seq<char>) -> Seq<char> {
    namespace + ":"@ + join_slash(
        match below(root, path) {
            Some(rest) => rest,
            None => components(path),
        },
    )
}

/// The components of `path` below `root`, if it lies below it.
pub(crate) fn below_exec(root: &str, path: &str) -> (r: Option<Vec<String>>)
    ensures
        match r {
            Some(v) => below(root@, path@) == Some(strs(v@)),
            None => below(root@, path@) is None,
        },
{
    let rc = path_components(root);
    let pc = path_components(path);
    let ra = str_starts_with_slash(root);
    let pa = str_starts_with_slash(path);
    let mut prefix = ra == pa && rc.len() <= pc.len();
    let mut k: usize = 0;
    while prefix && k < rc.len()
        invariant
            k <= rc@.len(),
            prefix <==> (ra == pa && rc@.len() <= pc@.len() && forall|q: int| 0 <= q < k ==> rc@[q]@ == pc@[q]@),
        decreases rc.len() - k,
    {
        if !str_eq(rc[k].as_str(), pc[k].as_str()) {
            prefix = false;
        }
        k = k + 1;
    }
    let ghost rcs = strs(rc@);
    let ghost pcs = strs(pc@);
    proof {
        let cond = is_absolute(root@) == is_absolute(path@) && rcs.len() <= pcs.len() && pcs.subrange(0, rcs.len() as int) == rcs;
        if prefix {
            assert(k == rc@.len());
            assert(pcs.subrange(0, rcs.len() as int) =~= rcs) by {
                assert forall|q: int| 0 <= q < rcs.len() implies pcs.subrange(0, rcs.len() as int)[q] == rcs[q] by {
                    assert(rc@[q]@ == pc@[q]@);
                };
            };
        } else if cond {
            assert forall|q: int| 0 <= q < k implies rc@[q]@ == pc@[q]@ by {
                assert(rcs[q] == pcs.subrange(0, rcs.len() as int)[q]);
            };
        }
    }
    if prefix {
        let mut rest: Vec<String> = Vec::new();
        let mut q: usize = rc.len();
        while q < pc.len()
            invariant
                rc@.len() <= q <= pc@.len(),
                pcs == strs(pc@),
                strs(rest@) == pcs.subrange(rc@.len() as int, q as int),
            decreases pc.len() - q,
        {
            let ghost r0 = rest@;
            rest.push(pc[q].clone());
            proof {
                assert(strs(rest@) =~= strs(r0).push(pc@[q as int]@));
                assert(pcs.subrange(rc@.len() as int, q + 1) =~= pcs.subrange(rc@.len() as int, q as int).push(pcs[q as int]));
            }
            q = q + 1;
        }
        proof {
            assert(below(root@, path@) == Some(pcs.subrange(rcs.len() as int, pcs.len() as int)));
        }
        Some(rest)
    } else {
        proof {
            assert(below(root@, path@) is None);
        }
        None
    }
}

fn identity(namespace: &str, root: &str, path: &str) -> (r: String)
    ensures
        r@ == identity_of(namespace@, root@, path@),
{
    let rest = match below_exec(root, path) {
        Some(v) => v,
        None => path_components(path),
    };
    let j = join_slash_exec(&rest);
    cat3(namespace, ":", j.as_str())
}

fn str_starts_with_slash(s: &str) -> (r: bool)
    ensures
        r == is_absolute(s@),
{
    let c = chars_of(s);
    c.len() > 0 && c[0] == '/'
}

/// `base` with `rest` appended as `PathBuf::join` does: an absolute `rest` replaces it.
pub open spec fn joined(base: Seq<char>, rest: Seq<char>) -> Seq<char> {
    if is_absolute(rest) || base.len() == 0 {
        rest
    } else if base.last() == '/' {
        base + rest
    } else {
        base + "/"@ + rest
    }
}

pub(crate) fn join_exec(base: &str, rest: &str) -> (r: String)
    ensures
        r@ == joined(base@, rest@),
{
    let b = chars_of(base);
    if str_starts_with_slash(rest) || b.len() == 0 {
        return own(rest);
    }
    if b[b.len() - 1] == '/' {
        cat(base, rest)
    } else {
        cat3(base, "/", rest)
    }
}

// ---------------------------------------------------------------------------
// Identities resolve back
// ---------------------------------------------------------------------------

/// A piece that `components` yields: non-empty, not `.`, and free of `/`.
pub open spec fn valid_component(x: Seq<char>) -> bool {
    x.len() > 0 && x != "."@ && forall|k: int| 0 <= k < x.len() ==> x[k] != '/'
}

proof fn lemma_first_index_scan(s: Seq<char>, c: char, from: int, to: int)
    requires
        0 <= from,
        to <= s.len(),
    ensures
        match first_index_of(s, c, from, to) {
            Some(j) => from <= j < to && s[j] == c && forall|k: int| from <= k < j ==> s[k] != c,
            None => forall|k: int| from <= k < to ==> s[k] != c,
        },
    decreases to - from,
{
    if from < to {
        lemma_first_index_scan(s, c, from + 1, to);
    }
}

proof fn lemma_components_from_valid(p: Seq<char>, i: int)
    ensures
        forall|q: int| 0 <= q < components_from(p, i).len() ==> valid_component(#[trigger] components_from(p, i)[q]),
    decreases p.len() - i,
{
    if 0 <= i < p.len() {
        lemma_first_index_scan(p, '/', i, p.len() as int);
        match first_index_of(p, '/', i, p.len() as int) {
            Some(j) => {
                lemma_components_from_valid(p, j + 1);
                let x = p.subrange(i, j);
                let n = named(x);
                let rest = components_from(p, j + 1);
                assert(components_from(p, i) == n + rest);
                assert forall|q: int| 0 <= q < (n + rest).len() implies valid_component(#[trigger] (n + rest)[q]) by {
                    if q < n.len() {
                        assert(n[q] == x);
                        assert forall|k: int| 0 <= k < x.len() implies x[k] != '/' by {
                            assert(x[k] == p[i + k]);
                        };
                    } else {
                        assert((n + rest)[q] == rest[q - n.len()]);
                    }
                };
            },
            None => {
                let x = p.subrange(i, p.len() as int);
                assert forall|k: int| 0 <= k < x.len() implies x[k] != '/' by {
                    assert(x[k] == p[i + k]);
                };
            },
        }
    }
}

proof fn lemma_concat_prefix(a: Seq<char>, b: Seq<char>, i: int)
    requires
        0 <= i <= a.len(),
    ensures
        components_from(a + "/"@ + b, i) == components_from(a, i) + components_from(a + "/"@ + b, a.len() as int + 1),
    decreases a.len() - i,
{
    reveal_strlit("/");
    let s = a + "/"@ + b;
    assert(s[a.len() as int] == '/');
    if i == a.len() {
        assert(first_index_of(s, '/', i, s.len() as int) == Some(i));
        assert(s.subrange(i, i) =~= Seq::<char>::empty());
        assert(components_from(a, i) =~= Seq::<Seq<char>>::empty());
        assert(components_from(s, i) =~= components_from(a, i) + components_from(s, a.len() as int + 1));
    } else {
        lemma_first_index_scan(a, '/', i, a.len() as int);
        lemma_first_index_scan(s, '/', i, s.len() as int);
        assert forall|k: int| 0 <= k < a.len() implies s[k] == a[k] by {};
        match first_index_of(a, '/', i, a.len() as int) {
            Some(j) => {
                assert(first_index_of(s, '/', i, s.len() as int) == Some(j));
                assert(s.subrange(i, j) =~= a.subrange(i, j));
                lemma_concat_prefix(a, b, j + 1);
                let n = named(a.subrange(i, j));
                assert(components_from(s, i) == n + components_from(s, j + 1));
                assert(components_from(a, i) == n + components_from(a, j + 1));
                assert(n + (components_from(a, j + 1) + components_from(s, a.len() as int + 1))
                    =~= (n + components_from(a, j + 1)) + components_from(s, a.len() as int + 1));
            },
            None => {
                assert(first_index_of(s, '/', i, s.len() as int) == Some(a.len() as int));
                assert(s.subrange(i, a.len() as int) =~= a.subrange(i, a.len() as int));
            },
        }
    }
}

proof fn lemma_concat_suffix(a: Seq<char>, b: Seq<char>, k: int)
    requires
        0 <= k <= b.len(),
    ensures
        components_from(a + "/"@ + b, a.len() as int + 1 + k) == components_from(b, k),
    decreases b.len() - k,
{
    reveal_strlit("/");
    let s = a + "/"@ + b;
    let off = a.len() as int + 1;
    assert(s.len() == off + b.len());
    if k < b.len() {
        assert forall|q: int| 0 <= q < b.len() implies s[off + q] == b[q] by {};
        lemma_first_index_scan(b, '/', k, b.len() as int);
        lemma_first_index_scan(s, '/', off + k, s.len() as int);
        match first_index_of(b, '/', k, b.len() as int) {
            Some(j) => {
                if first_index_of(s, '/', off + k, s.len() as int) != Some(off + j) {
                    let j2 = first_index_of(s, '/', off + k, s.len() as int)->0;
                    assert(s[off + (j2 - off)] == b[j2 - off]);
                }
                assert(s.subrange(off + k, off + j) =~= b.subrange(k, j));
                lemma_concat_suffix(a, b, j + 1);
            },
            None => {
                if first_index_of(s, '/', off + k, s.len() as int) is Some {
                    let j2 = first_index_of(s, '/', off + k, s.len() as int)->0;
                    assert(s[off + (j2 - off)] == b[j2 - off]);
                }
                assert(s.subrange(off + k, s.len() as int) =~= b.subrange(k, b.len() as int));
            },
        }
    }
}

/// Components split at an inserted `/`.
proof fn lemma_components_concat(a: Seq<char>, b: Seq<char>)
    ensures
        components(a + "/"@ + b) == components(a) + components(b),
{
    lemma_concat_prefix(a, b, 0);
    lemma_concat_suffix(a, b, 0);
}

proof fn lemma_components_single(x: Seq<char>)
    requires
        valid_component(x),
    ensures
        components(x) == seq![x],
{
    lemma_first_index_scan(x, '/', 0, x.len() as int);
    assert(x.subrange(0, x.len() as int) =~= x);
}

proof fn lemma_components_join(rest: Seq<Seq<char>>)
    requires
        forall|q: int| 0 <= q < rest.len() ==> valid_component(#[trigger] rest[q]),
    ensures
        components(join_slash(rest)) == rest,
        rest.len() > 0 ==> join_slash(rest).len() > 0 && join_slash(rest)[0] != '/',
    decreases rest.len(),
{
    if rest.len() == 0 {
        assert(components(Seq::<char>::empty()) =~= Seq::<Seq<char>>::empty());
    } else if rest.len() == 1 {
        lemma_components_single(rest[0]);
        assert(rest =~= seq![rest[0]]);
    } else {
        let init = rest.drop_last();
        lemma_components_join(init);
        lemma_components_concat(join_slash(init), rest.last());
        lemma_components_single(rest.last());
        assert(rest =~= init + seq![rest.last()]);
        assert((join_slash(init) + "/"@ + rest.last())[0] == join_slash(init)[0]);
    }
}

proof fn lemma_identity_back(namespace: Seq<char>, root: Seq<char>, path: Seq<char>)
    requires
        below(root, path) is Some,
    ensures
        identity_of(namespace, root, path).subrange(namespace.len() as int + 1, identity_of(namespace, root, path).len() as int)
            == join_slash(below(root, path)->0),
        components(joined(root, join_slash(below(root, path)->0))) == components(path),
        is_absolute(joined(root, join_slash(below(root, path)->0))) == is_absolute(path),
{
    reveal_strlit(":");
    reveal_strlit("/");
    let rc = components(root);
    let pc = components(path);
    let rest = below(root, path)->0;
    let js = join_slash(rest);
    let id = identity_of(namespace, root, path);
    assert(id.subrange(namespace.len() as int + 1, id.len() as int) =~= js);
    lemma_components_from_valid(path, 0);
    assert forall|q: int| 0 <= q < rest.len() implies valid_component(#[trigger] rest[q]) by {
        assert(rest[q] == pc[rc.len() + q]);
    };
    lemma_components_join(rest);
    assert(pc =~= rc + rest);
    assert(!is_absolute(js));
    if root.len() == 0 {
        assert(rc =~= Seq::<Seq<char>>::empty());
    } else if root.last() == '/' {
        let r0 = root.drop_last();
        assert(root =~= r0 + "/"@ + Seq::<char>::empty());
        lemma_components_concat(r0, Seq::<char>::empty());
        assert(components(Seq::<char>::empty()) =~= Seq::<Seq<char>>::empty());
        assert(root + js =~= r0 + "/"@ + js);
        lemma_components_concat(r0, js);
        assert(rc =~= components(r0));
        assert((root + js)[0] == root[0]);
    } else {
        lemma_components_concat(root, js);
        assert((root + "/"@ + js)[0] == root[0]);
    }
}

/// A path below the project root comes back from its project identity: resolving
/// `project_identity(path)` gives a path with the same components, absolute exactly
/// when `path` is.
pub proof fn law_project_identity_resolves_back(roots: VerificationRoots, path: Seq<char>)
    requires
        below(roots.project_root@, path) is Some,
    ensures
        occurs_at(identity_of("project"@, roots.project_root@, path), 0, "project:"@),
        ({
            let id = identity_of("project"@, roots.project_root@, path);
            let back = joined(roots.project_root@, id.subrange(8, id.len() as int));
            components(back) == components(path) && is_absolute(back) == is_absolute(path)
        }),
{
    reveal_strlit("project");
    reveal_strlit("project:");
    reveal_strlit(":");
    let id = identity_of("project"@, roots.project_root@, path);
    assert(id.subrange(0, 8) =~= "project:"@);
    lemma_identity_back("project"@, roots.project_root@, path);
}

/// A path below the specification root comes back from its spec identity, which is
/// never taken for a project identity.
pub proof fn law_spec_identity_resolves_back(roots: VerificationRoots, path: Seq<char>)
    requires
        below(roots.specification_root@, path) is Some,
    ensures
        !occurs_at(identity_of("spec"@, roots.specification_root@, path), 0, "project:"@),
        occurs_at(identity_of("spec"@, roots.specification_root@, path), 0, "spec:"@),
        ({
            let id = identity_of("spec"@, roots.specification_root@, path);
            let back = joined(roots.specification_root@, id.subrange(5, id.len() as int));
            components(back) == components(path) && is_absolute(back) == is_absolute(path)
        }),
{
    reveal_strlit("spec");
    reveal_strlit("spec:");
    reveal_strlit("project:");
    reveal_strlit(":");
    let id = identity_of("spec"@, roots.specification_root@, path);
    assert(id.subrange(0, 5) =~= "spec:"@);
    if occurs_at(id, 0, "project:"@) {
        assert(id[0] == id.subrange(0, 8)[0]);
    }
    lemma_identity_back("spec"@, roots.specification_root@, path);
}

/// The roots of a verification with one project and specification root.
pub open spec fn roots_of(r: VerificationRoots, project: Seq<char>, spec: Seq<char>, state: Seq<char>, cwd: Seq<char>) -> bool {
    &&& r.project_root@ == normalized(project, cwd)
    &&& r.specification_root@ == normalized(spec, cwd)
    &&& r.state_root@ == normalized(state, cwd)
}

impl VerificationRoots {
    /// One root for project and specification, and a state root.
    pub fn legacy(root: &str, state_root: &str, cwd: &str) -> (r: Self)
        ensures
            roots_of(r, root@, root@, state_root@, cwd@),
    {
        VerificationRoots {
            project_root: normalize(root, cwd),
            specification_root: normalize(root, cwd),
            state_root: normalize(state_root, cwd),
        }
    }

    /// Separate project, specification and state roots.
    pub fn explicit(project_root: &str, specification_root: &str, state_root: &str, cwd: &str) -> (r: Self)
        ensures
            roots_of(r, project_root@, specification_root@, state_root@, cwd@),
    {
        VerificationRoots {
            project_root: normalize(project_root, cwd),
            specification_root: normalize(specification_root, cwd),
            state_root: normalize(state_root, cwd),
        }
    }

    /// The roots as reported.
    pub fn view(&self) -> (r: RootsView)
        ensures
            r.project_root == self.project_root,
            r.specification_root == self.specification_root,
            r.state_root == self.state_root,
    {
        RootsView {
            project_root: self.project_root.clone(),
            specification_root: self.specification_root.clone(),
            state_root: self.state_root.clone(),
        }
    }

    /// `project:` and the path relative to the project root.
    pub fn project_identity(&self, path: &str) -> (r: String)
        ensures
            r@ == identity_of("project"@, self.project_root@, path@),
    {
        identity("project", self.project_root.as_str(), path)
    }

    /// `spec:` and the path relative to the specification root.
    pub fn spec_identity(&self, path: &str) -> (r: String)
        ensures
            r@ == identity_of("spec"@, self.specification_root@, path@),
    {
        identity("spec", self.specification_root.as_str(), path)
    }

    /// The file an identity names under these roots.
    pub fn resolve_identity(&self, identity: &str) -> (r: Option<String>)
        ensures
            match r {
                Some(p) => (occurs_at(identity@, 0, "project:"@) && p@ == joined(self.project_root@, identity@.subrange(8, identity@.len() as int)))
                    || (!occurs_at(identity@, 0, "project:"@) && occurs_at(identity@, 0, "spec:"@) && p@ == joined(self.specification_root@, identity@.subrange(5, identity@.len() as int))),
                None => !occurs_at(identity@, 0, "project:"@) && !occurs_at(identity@, 0, "spec:"@),
            },
    {
        let c = chars_of(identity);
        proof {
            reveal_strlit("project:");
            reveal_strlit("spec:");
        }
        if occurs_at_exec(&c, 0, "project:") {
            let rest = slice_string(&c, 8, c.len());
            return Some(join_exec(self.project_root.as_str(), rest.as_str()));
        }
        if occurs_at_exec(&c, 0, "spec:") {
            let rest = slice_string(&c, 5, c.len());
            return Some(join_exec(self.specification_root.as_str(), rest.as_str()));
        }
        None
    }
}

} // verus!
