//! Facts about a Cargo workspace, computed from the metadata Cargo reports and the
//! text of the package manifests.
use vstd::prelude::*;
use crate::adr::strs;
use crate::keyed::{Keyed, has_key, set_has, strictly_sorted, upsert};
use crate::project::{
    Artifact, ArtifactId, CoverageScope, FactCoverage, FactId, ProjectFact, Provenance, ProvenanceKind, SourceSpan,
    WorldAssumption,
};
use crate::sorting::{Ordered, sort_stable, sorted_le};
use crate::text::{cat, cat3, chars_of, is_trim_ws, is_trim_ws_exec, occurs_at, occurs_at_exec, own, seq_lt, slice_string, str_eq, str_lt, trim_start_index, lemma_lt_total, lemma_lt_transitive};

verus! {

/// One dependency declaration as Cargo reports it.
#[derive(Debug)]
pub struct CargoDependency {
    pub name: String,
    pub kind: Option<String>,
    pub optional: bool,
    pub target: Option<String>,
    pub path: Option<String>,
    pub rename: Option<String>,
    pub source: Option<String>,
}

/// One package as Cargo reports it.
#[derive(Debug)]
pub struct CargoPackage {
    pub id: String,
    pub name: String,
    pub manifest_path: String,
    pub dependencies: Vec<CargoDependency>,
}

/// What `cargo metadata --no-deps` reports about a workspace.
#[derive(Debug)]
pub struct CargoMetadata {
    pub packages: Vec<CargoPackage>,
    pub workspace_members: Vec<String>,
    pub workspace_root: String,
}

/// The artifacts, facts, inputs and coverage claim extracted from a workspace.
#[derive(Debug)]
pub struct CargoFacts {
    pub artifacts: Vec<Artifact>,
    pub facts: Vec<ProjectFact>,
    pub input_files: Vec<String>,
    pub coverage: Vec<FactCoverage>,
}

/// The number of facts of each relation, by relation name.
pub open spec fn count_relation(facts: Seq<ProjectFact>, relation: Seq<char>) -> nat
    decreases facts.len(),
{
    if facts.len() == 0 {
        0
    } else {
        count_relation(facts.drop_last(), relation) + if facts.last().relation@ == relation {
            1nat
        } else {
            0nat
        }
    }
}

/// A relation name with its fact count.
#[derive(Debug)]
pub struct RelationCount {
    pub relation: String,
    pub count: usize,
}

impl Keyed for RelationCount {
    open spec fn key(&self) -> Seq<char> {
        self.relation@
    }

    fn key_string(&self) -> (r: String) {
        self.relation.clone()
    }
}

impl CargoFacts {
    /// How many facts there are of each relation, in relation order.
    pub fn fact_counts(&self) -> (r: Vec<RelationCount>)
        ensures
            strictly_sorted(r@),
            forall|k: Seq<char>| #[trigger] has_key(r@, k) <==> exists|i: int|
                0 <= i < self.facts@.len() && (#[trigger] self.facts@[i]).relation@ == k,
            forall|i: int| 0 <= i < r@.len() ==> (#[trigger] r@[i]).count == count_relation(self.facts@, r@[i].relation@),
    {
        let mut out: Vec<RelationCount> = Vec::new();
        let mut i: usize = 0;
        while i < self.facts.len()
            invariant
                i <= self.facts@.len(),
                strictly_sorted(out@),
                forall|k: Seq<char>| #[trigger] has_key(out@, k) <==> exists|j: int|
                    0 <= j < i && (#[trigger] self.facts@[j]).relation@ == k,
                forall|q: int| 0 <= q < out@.len() ==> (#[trigger] out@[q]).count == count_relation(
                    self.facts@.take(i as int),
                    out@[q].relation@,
                ),
                forall|q: int| 0 <= q < out@.len() ==> (#[trigger] out@[q]).count <= i,
            decreases self.facts.len() - i,
        {
            let rel = &self.facts[i].relation;
            let ghost o0 = out@;
            let ghost fi = self.facts@.take(i as int);
            let ghost fj = self.facts@.take(i + 1);
            proof {
                assert(fj.drop_last() =~= fi);
                assert(fj.last() == self.facts@[i as int]);
            }
            let found = crate::keyed::find_key(&out, rel.as_str());
            let n: usize = match found {
                Some(j) => out[j].count,
                None => 0,
            };
            proof {
                match found {
                    Some(j) => {},
                    None => {
                        assert(!has_key(o0, rel@));
                        assert(forall|j: int| 0 <= j < i ==> (#[trigger] self.facts@[j]).relation@ != rel@);
                        lemma_count_absent(fi, rel@);
                    },
                }
            }
            let entry = RelationCount { relation: rel.clone(), count: n + 1 };
            upsert(&mut out, entry);
            proof {
                assert forall|k: Seq<char>| #[trigger] has_key(out@, k) <==> exists|j: int|
                    0 <= j < i + 1 && (#[trigger] self.facts@[j]).relation@ == k by {
                    if k == rel@ {
                        assert(self.facts@[i as int].relation@ == k);
                    }
                    if exists|j: int| 0 <= j < i + 1 && (#[trigger] self.facts@[j]).relation@ == k {
                        let j = choose|j: int| 0 <= j < i + 1 && (#[trigger] self.facts@[j]).relation@ == k;
                        if j < i {
                            assert(has_key(o0, k));
                        }
                    }
                };
                assert forall|q: int| 0 <= q < out@.len() implies (#[trigger] out@[q]).count == count_relation(fj, out@[q].relation@)
                    && out@[q].count <= i + 1 by {
                    let x = out@[q];
                    assert(out@.contains(x));
                    if x == entry {
                    } else {
                        assert(o0.contains(x));
                        if x.key() == entry.key() {
                            crate::keyed::lemma_sorted_unique_key(out@, x, entry);
                        }
                        let p = choose|p: int| 0 <= p < o0.len() && o0[p] == x;
                        assert(o0[p].count == count_relation(fi, o0[p].relation@));
                    }
                };
            }
            i = i + 1;
        }
        proof {
            assert(self.facts@.take(self.facts@.len() as int) =~= self.facts@);
        }
        out
    }
}

proof fn lemma_count_absent(facts: Seq<ProjectFact>, relation: Seq<char>)
    requires
        forall|j: int| 0 <= j < facts.len() ==> (#[trigger] facts[j]).relation@ != relation,
    ensures
        count_relation(facts, relation) == 0,
    decreases facts.len(),
{
    if facts.len() > 0 {
        assert forall|j: int| 0 <= j < facts.drop_last().len() implies (#[trigger] facts.drop_last()[j]).relation@ != relation by {
            assert(facts.drop_last()[j] == facts[j]);
        };
        lemma_count_absent(facts.drop_last(), relation);
    }
}


// ---------------------------------------------------------------------------
// Extraction
// ---------------------------------------------------------------------------

/// `path` relative to `root` when `root` is a directory prefix of it, else `path`.
pub open spec fn relative_to(root: Seq<char>, path: Seq<char>) -> Seq<char> {
    if root.len() > 0 && root.last() == '/' && root.len() <= path.len() && path.subrange(0, root.len() as int) == root {
        path.subrange(root.len() as int, path.len() as int)
    } else if root.len() < path.len() && path.subrange(0, root.len() as int) == root && path[root.len() as int] == '/' {
        path.subrange(root.len() as int + 1, path.len() as int)
    } else {
        path
    }
}

pub(crate) fn relative_to_exec(root: &str, path: &str) -> (r: String)
    ensures
        r@ == relative_to(root@, path@),
{
    let rc = chars_of(root);
    let pc = chars_of(path);
    if rc.len() > 0 && rc[rc.len() - 1] == '/' && rc.len() <= pc.len() && occurs_at_exec(&pc, 0, root) {
        proof {
            assert(pc@.subrange(0, rc@.len() as int) == root@);
        }
        return slice_string(&pc, rc.len(), pc.len());
    }
    if rc.len() < pc.len() && occurs_at_exec(&pc, 0, root) && pc[rc.len()] == '/' {
        return slice_string(&pc, rc.len() + 1, pc.len());
    }
    proof {
        if root@.len() > 0 && root@.last() == '/' && root@.len() <= path@.len() && path@.subrange(0, root@.len() as int) == root@ {
            assert(occurs_at(pc@, 0, root@));
        }
        if root@.len() < path@.len() && path@.subrange(0, root@.len() as int) == root@ {
            assert(occurs_at(pc@, 0, root@));
        }
    }
    own(path)
}

pub open spec fn extractor_name() -> Seq<char> {
    "cargo metadata --format-version 1 --no-deps --offline"@
}

/// Provenance of what Cargo metadata reports for a manifest.
pub open spec fn extracted(p: Provenance, source: Seq<char>) -> bool {
    &&& p.kind == ProvenanceKind::DeterministicallyExtracted
    &&& p.source@ == source
    &&& p.extractor matches Some(e) && e@ == extractor_name()
}

pub open spec fn opt_text(o: Option<String>, default: Seq<char>) -> Seq<char> {
    match o {
        Some(s) => s@,
        None => default,
    }
}

pub open spec fn dependency_kind(d: CargoDependency) -> Seq<char> {
    opt_text(d.kind, "normal"@)
}

/// The name a dependency is declared under in the manifest.
pub open spec fn declared_name(d: CargoDependency) -> Seq<char> {
    opt_text(d.rename, d.name@)
}

pub open spec fn source_kind(d: CargoDependency) -> Seq<char> {
    if d.path is Some {
        "path"@
    } else if d.source matches Some(s) && s@.len() >= 4 && s@.subrange(0, 4) == "git+"@ {
        "git"@
    } else {
        "registry"@
    }
}

/// The attributes of a dependency fact, in key order.
pub open spec fn dependency_attributes(d: CargoDependency) -> Seq<(Seq<char>, Seq<char>)> {
    seq![
        ("actual_package"@, d.name@),
        ("declared_name"@, declared_name(d)),
        ("kind"@, dependency_kind(d)),
        ("optional"@, if d.optional { "true"@ } else { "false"@ }),
        ("source_kind"@, source_kind(d)),
        ("target"@, opt_text(d.target, Seq::empty())),
    ]
}

pub open spec fn pair_views(s: Seq<(String, String)>) -> Seq<(Seq<char>, Seq<char>)> {
    s.map_values(|p: (String, String)| (p.0@, p.1@))
}

/// The text of the manifest at `path` (the first entry for it), if it was read.
pub open spec fn manifest_text(texts: Seq<(String, String)>, path: Seq<char>) -> Option<Seq<char>>
    decreases texts.len(),
{
    if texts.len() == 0 {
        None
    } else if texts[0].0@ == path {
        Some(texts[0].1@)
    } else {
        manifest_text(texts.drop_first(), path)
    }
}

pub open spec fn trim_start(l: Seq<char>) -> Seq<char> {
    l.subrange(trim_start_index(l, 0), l.len() as int)
}

/// The line declares `name`: after leading whitespace it reads `name ` or `name=`.
pub open spec fn declares(line: Seq<char>, name: Seq<char>) -> bool {
    occurs_at(trim_start(line), 0, name + " "@) || occurs_at(trim_start(line), 0, name + "="@)
}

/// The one-based number of the first line from `k` on that declares `name`.
pub open spec fn declaring_line(ls: Seq<Seq<char>>, name: Seq<char>, k: int) -> Option<int>
    decreases ls.len() - k,
{
    if k < 0 || k >= ls.len() {
        None
    } else if declares(ls[k], name) {
        Some(k + 1)
    } else {
        declaring_line(ls, name, k + 1)
    }
}

pub open spec fn dependency_line(texts: Seq<(String, String)>, manifest: Seq<char>, name: Seq<char>) -> Option<int> {
    match manifest_text(texts, manifest) {
        Some(t) => declaring_line(crate::document::lines_from(t, 0), name, 0),
        None => None,
    }
}

pub open spec fn package_fact(root: Seq<char>, p: CargoPackage, f: ProjectFact) -> bool {
    &&& f.id.0@ == "cargo:package:"@ + p.name@
    &&& f.relation@ == "package"@
    &&& strs(f.arguments@) == seq![p.name@]
    &&& f.value
    &&& f.attributes@.len() == 0
    &&& extracted(f.provenance, relative_to(root, p.manifest_path@))
    &&& f.provenance.span is None
}

pub open spec fn member_fact(root: Seq<char>, p: CargoPackage, f: ProjectFact) -> bool {
    &&& f.id.0@ == "cargo:workspace-member:"@ + p.name@
    &&& f.relation@ == "workspace_member"@
    &&& strs(f.arguments@) == seq![p.name@]
    &&& f.value
    &&& f.attributes@.len() == 0
    &&& extracted(f.provenance, relative_to(root, p.manifest_path@))
    &&& f.provenance.span is None
}

pub open spec fn dependency_fact(root: Seq<char>, texts: Seq<(String, String)>, p: CargoPackage, d: CargoDependency, f: ProjectFact) -> bool {
    let rel = relative_to(root, p.manifest_path@);
    &&& f.id.0@ == "cargo:declared-direct:"@ + p.name@ + ":"@ + d.name@ + ":"@ + dependency_kind(d) + ":"@ + opt_text(
        d.target,
        Seq::empty(),
    )
    &&& f.relation@ == "declares_direct_dependency"@
    &&& strs(f.arguments@) == seq![p.name@, d.name@]
    &&& f.value
    &&& pair_views(f.attributes@) == dependency_attributes(d)
    &&& extracted(f.provenance, rel)
    &&& match dependency_line(texts, p.manifest_path@, declared_name(d)) {
        Some(line) => f.provenance.span matches Some(span) && span.filename@ == rel && span.line == line && span.column == 1,
        None => f.provenance.span is None,
    }
}

pub open spec fn is_member(m: CargoMetadata, p: CargoPackage) -> bool {
    set_has(m.workspace_members@, p.id@)
}

/// `f` is one of the facts that package `p` contributes.
pub open spec fn fact_of_package(m: CargoMetadata, texts: Seq<(String, String)>, p: CargoPackage, f: ProjectFact) -> bool {
    ||| package_fact(m.workspace_root@, p, f)
    ||| (is_member(m, p) && member_fact(m.workspace_root@, p, f))
    ||| exists|j: int| 0 <= j < p.dependencies@.len() && dependency_fact(m.workspace_root@, texts, p, #[trigger] p.dependencies@[j], f)
}

/// The facts of a package, in the order they are produced.
pub open spec fn package_fact_count(m: CargoMetadata, p: CargoPackage) -> nat {
    1 + (if is_member(m, p) { 1nat } else { 0nat }) + p.dependencies@.len()
}

impl Ordered for ProjectFact {
    open spec fn le(&self, other: &Self) -> bool {
        seq_lt(self.id.0@, other.id.0@) || self.id.0@ == other.id.0@
    }

    proof fn lemma_le_total(a: &Self, b: &Self) {
        lemma_lt_total(a.id.0@, b.id.0@);
    }

    proof fn lemma_le_transitive(a: &Self, b: &Self, c: &Self) {
        if seq_lt(a.id.0@, b.id.0@) && seq_lt(b.id.0@, c.id.0@) {
            lemma_lt_transitive(a.id.0@, b.id.0@, c.id.0@);
        }
    }

    fn le_exec(&self, other: &Self) -> (r: bool) {
        str_lt(self.id.0.as_str(), other.id.0.as_str()) || str_eq(self.id.0.as_str(), other.id.0.as_str())
    }
}

impl Ordered for Artifact {
    open spec fn le(&self, other: &Self) -> bool {
        seq_lt(self.id.0@, other.id.0@) || self.id.0@ == other.id.0@
    }

    proof fn lemma_le_total(a: &Self, b: &Self) {
        lemma_lt_total(a.id.0@, b.id.0@);
    }

    proof fn lemma_le_transitive(a: &Self, b: &Self, c: &Self) {
        if seq_lt(a.id.0@, b.id.0@) && seq_lt(b.id.0@, c.id.0@) {
            lemma_lt_transitive(a.id.0@, b.id.0@, c.id.0@);
        }
    }

    fn le_exec(&self, other: &Self) -> (r: bool) {
        str_lt(self.id.0.as_str(), other.id.0.as_str()) || str_eq(self.id.0.as_str(), other.id.0.as_str())
    }
}

fn manifest_text_exec<'a>(texts: &'a Vec<(String, String)>, path: &str) -> (r: Option<&'a String>)
    ensures
        r matches Some(t) ==> manifest_text(texts@, path@) == Some(t@),
        r is None ==> manifest_text(texts@, path@) is None,
{
    let mut i: usize = 0;
    proof {
        assert(texts@.subrange(0, texts@.len() as int) =~= texts@);
    }
    while i < texts.len()
        invariant
            i <= texts@.len(),
            manifest_text(texts@, path@) == manifest_text(texts@.subrange(i as int, texts@.len() as int), path@),
        decreases texts.len() - i,
    {
        let ghost rest = texts@.subrange(i as int, texts@.len() as int);
        proof {
            assert(rest[0] == texts@[i as int]);
            assert(rest.drop_first() =~= texts@.subrange(i + 1, texts@.len() as int));
        }
        if str_eq(texts[i].0.as_str(), path) {
            return Some(&texts[i].1);
        }
        i = i + 1;
    }
    None
}

fn trim_start_exec(l: &str) -> (r: String)
    ensures
        r@ == trim_start(l@),
{
    let c = chars_of(l);
    let mut k: usize = 0;
    while k < c.len() && is_trim_ws_exec(c[k])
        invariant
            k <= c@.len(),
            c@ == l@,
            trim_start_index(l@, 0) == trim_start_index(l@, k as int),
        decreases c.len() - k,
    {
        k = k + 1;
    }
    slice_string(&c, k, c.len())
}

fn declares_exec(line: &str, name: &str) -> (r: bool)
    ensures
        r == declares(line@, name@),
{
    let t = trim_start_exec(line);
    let tc = chars_of(t.as_str());
    let a = cat(name, " ");
    let b = cat(name, "=");
    occurs_at_exec(&tc, 0, a.as_str()) || occurs_at_exec(&tc, 0, b.as_str())
}

fn dependency_line_exec(texts: &Vec<(String, String)>, manifest: &str, name: &str) -> (r: Option<usize>)
    ensures
        match r {
            Some(l) => dependency_line(texts@, manifest@, name@) == Some(l as int),
            None => dependency_line(texts@, manifest@, name@) is None,
        },
{
    let text = match manifest_text_exec(texts, manifest) {
        Some(t) => t,
        None => return None,
    };
    let ls = crate::document::lines(text.as_str());
    let ghost lv = ls@.map_values(|l: String| l@);
    let mut k: usize = 0;
    while k < ls.len()
        invariant
            k <= ls@.len(),
            lv == ls@.map_values(|l: String| l@),
            lv == crate::document::lines_from(text@, 0),
            declaring_line(lv, name@, 0) == declaring_line(lv, name@, k as int),
            manifest_text(texts@, manifest@) == Some(text@),
        decreases ls.len() - k,
    {
        proof {
            assert(lv[k as int] == ls@[k as int]@);
        }
        if declares_exec(ls[k].as_str(), name) {
            return Some(k + 1);
        }
        k = k + 1;
    }
    None
}


fn extracted_provenance(source: &String, span: Option<SourceSpan>) -> (p: Provenance)
    ensures
        extracted(p, source@),
        p.span == span,
{
    Provenance {
        kind: ProvenanceKind::DeterministicallyExtracted,
        source: source.clone(),
        span,
        extractor: Some(own("cargo metadata --format-version 1 --no-deps --offline")),
    }
}

fn opt_text_exec(o: &Option<String>, default: &str) -> (r: String)
    ensures
        r@ == opt_text(*o, default@),
{
    match o {
        Some(s) => s.clone(),
        None => own(default),
    }
}

fn dependency_fact_for(m: &CargoMetadata, texts: &Vec<(String, String)>, p: &CargoPackage, rel: &String, d: &CargoDependency) -> (f: ProjectFact)
    requires
        rel@ == relative_to(m.workspace_root@, p.manifest_path@),
    ensures
        dependency_fact(m.workspace_root@, texts@, *p, *d, f),
{
    let kind = opt_text_exec(&d.kind, "normal");
    let alias = opt_text_exec(&d.rename, d.name.as_str());
    let source_kind = if d.path.is_some() {
        own("path")
    } else {
        let git = match &d.source {
            Some(s) => crate::text::starts_with(s.as_str(), "git+"),
            None => false,
        };
        if git {
            own("git")
        } else {
            own("registry")
        }
    };
    proof {
        reveal_strlit("git+");
    }
    let target = opt_text_exec(&d.target, "");
    proof {
        reveal_strlit("");
        assert(target@ == opt_text(d.target, Seq::empty())) by {
            if d.target is None {
                assert(""@ =~= Seq::<char>::empty());
            }
        };
    }
    let attributes: Vec<(String, String)> = vec![
        (own("actual_package"), d.name.clone()),
        (own("declared_name"), alias.clone()),
        (own("kind"), kind.clone()),
        (own("optional"), if d.optional { own("true") } else { own("false") }),
        (own("source_kind"), source_kind),
        (own("target"), target.clone()),
    ];
    proof {
        assert(pair_views(attributes@) =~= dependency_attributes(*d));
    }
    let span = match dependency_line_exec(texts, p.manifest_path.as_str(), alias.as_str()) {
        Some(line) => Some(SourceSpan { filename: rel.clone(), line, column: 1 }),
        None => None,
    };
    let mut id = own("cargo:declared-direct:");
    id.append(p.name.as_str());
    id.append(":");
    id.append(d.name.as_str());
    id.append(":");
    id.append(kind.as_str());
    id.append(":");
    id.append(target.as_str());
    let arguments = vec![p.name.clone(), d.name.clone()];
    proof {
        assert(strs(arguments@) =~= seq![p.name@, d.name@]);
    }
    ProjectFact {
        id: FactId(id),
        relation: own("declares_direct_dependency"),
        arguments,
        value: true,
        attributes,
        provenance: extracted_provenance(rel, span),
    }
}

/// Some fact of `fs` is the one dependency `d` of package `p` gives.
pub open spec fn has_dependency_fact(m: CargoMetadata, texts: Seq<(String, String)>, p: CargoPackage, d: CargoDependency, fs: Seq<ProjectFact>) -> bool {
    exists|f: ProjectFact| #[trigger] fs.contains(f) && dependency_fact(m.workspace_root@, texts, p, d, f)
}

/// Appends the facts of one package: the package, its membership, its dependencies.
fn push_package_facts(m: &CargoMetadata, texts: &Vec<(String, String)>, p: &CargoPackage, out: &mut Vec<ProjectFact>)
    ensures
        final(out)@.len() == old(out)@.len() + package_fact_count(*m, *p),
        forall|q: int| 0 <= q < old(out)@.len() ==> final(out)@[q] == old(out)@[q],
        forall|q: int| old(out)@.len() <= q < final(out)@.len() ==> fact_of_package(*m, texts@, *p, #[trigger] final(out)@[q]),
        exists|f: ProjectFact| #[trigger] final(out)@.contains(f) && package_fact(m.workspace_root@, *p, f),
        is_member(*m, *p) ==> exists|f: ProjectFact| #[trigger] final(out)@.contains(f) && member_fact(m.workspace_root@, *p, f),
        forall|j: int| 0 <= j < p.dependencies@.len() ==> has_dependency_fact(*m, texts@, *p, #[trigger] p.dependencies@[j], final(out)@),
{
    let ghost o0 = out@;
    let rel = relative_to_exec(m.workspace_root.as_str(), p.manifest_path.as_str());
    let pf = ProjectFact {
        id: FactId(cat("cargo:package:", p.name.as_str())),
        relation: own("package"),
        arguments: vec![p.name.clone()],
        value: true,
        attributes: Vec::new(),
        provenance: extracted_provenance(&rel, None),
    };
    proof {
        assert(strs(pf.arguments@) =~= seq![p.name@]);
    }
    out.push(pf);
    proof {
        assert(out@[o0.len() as int] == pf);
        assert(out@.contains(pf));
    }
    let member = crate::keyed::contains_str(&m.workspace_members, p.id.as_str());
    if member {
        let mf = ProjectFact {
            id: FactId(cat("cargo:workspace-member:", p.name.as_str())),
            relation: own("workspace_member"),
            arguments: vec![p.name.clone()],
            value: true,
            attributes: Vec::new(),
            provenance: extracted_provenance(&rel, None),
        };
        proof {
            assert(strs(mf.arguments@) =~= seq![p.name@]);
        }
        out.push(mf);
        proof {
            assert(out@[out@.len() - 1] == mf);
            assert(out@.contains(mf));
        }
    }
    let ghost o1 = out@;
    proof {
        assert(forall|q: int| 0 <= q < o0.len() ==> o1[q] == o0[q]);
    }
    let mut j: usize = 0;
    while j < p.dependencies.len()
        invariant
            j <= p.dependencies@.len(),
            rel@ == relative_to(m.workspace_root@, p.manifest_path@),
            out@.len() == o1.len() + j,
            forall|q: int| 0 <= q < o1.len() ==> out@[q] == o1[q],
            forall|q: int| 0 <= q < j ==> dependency_fact(m.workspace_root@, texts@, *p, p.dependencies@[q], #[trigger] out@[o1.len() + q]),
        decreases p.dependencies.len() - j,
    {
        let f = dependency_fact_for(m, texts, p, &rel, &p.dependencies[j]);
        out.push(f);
        j = j + 1;
    }
    proof {
        assert forall|q: int| 0 <= q < o0.len() implies out@[q] == o0[q] by {
            assert(out@[q] == o1[q]);
        };
        assert forall|q: int| old(out)@.len() <= q < out@.len() implies fact_of_package(*m, texts@, *p, #[trigger] out@[q]) by {
            if q >= o1.len() {
                let k = q - o1.len();
                assert(dependency_fact(m.workspace_root@, texts@, *p, p.dependencies@[k], out@[o1.len() + k]));
            } else if q == o0.len() {
                assert(out@[q] == o1[q]);
            } else {
                assert(out@[q] == o1[q]);
            }
        };
        assert(out@.contains(pf)) by {
            assert(out@[o0.len() as int] == o1[o0.len() as int]);
        };
        if member {
            assert(out@[o0.len() as int + 1] == o1[o0.len() as int + 1]);
            assert(out@.contains(out@[o0.len() as int + 1]));
        }
        assert forall|k: int| 0 <= k < p.dependencies@.len() implies has_dependency_fact(*m, texts@, *p, #[trigger] p.dependencies@[k], out@) by {
            assert(out@.contains(out@[o1.len() + k]));
        };
    }
}


pub open spec fn package_artifact(root: Seq<char>, p: CargoPackage, a: Artifact) -> bool {
    &&& a.id.0@ == "package:"@ + p.name@
    &&& a.kind@ == "cargo_package"@
    &&& extracted(a.provenance, relative_to(root, p.manifest_path@))
    &&& a.provenance.span is None
}

pub open spec fn manifest_artifact(root: Seq<char>, p: CargoPackage, a: Artifact) -> bool {
    &&& a.id.0@ == relative_to(root, p.manifest_path@)
    &&& a.kind@ == "cargo_manifest"@
    &&& extracted(a.provenance, relative_to(root, p.manifest_path@))
    &&& a.provenance.span is None
}

/// `root/Cargo.toml`.
pub open spec fn root_manifest(root: Seq<char>) -> Seq<char> {
    if root.len() == 0 {
        "Cargo.toml"@
    } else if root.last() == '/' {
        root + "Cargo.toml"@
    } else {
        root + "/Cargo.toml"@
    }
}

/// The completeness claim Cargo metadata supports: every unconditional, non-optional
/// normal direct dependency declaration is listed.
pub open spec fn cargo_claim(c: FactCoverage) -> bool {
    &&& c.relation@ == "declares_direct_dependency"@
    &&& c.provider@ == "cargo_metadata"@
    &&& c.world == WorldAssumption::Closed
    &&& c.scope is Global
    &&& pair_views(c.qualifiers@) == seq![
        ("identity"@, "actual_package_name"@),
        ("kind"@, "normal"@),
        ("optional"@, "false"@),
        ("sources"@, "path,registry,git"@),
        ("target"@, "unconditional"@),
    ]
    &&& c.statement@ == "all unconditional, non-optional normal direct dependency declarations in workspace manifests are enumerated"@
    &&& c.diagnostics@.len() == 0
}

pub open spec fn has_package_fact(m: CargoMetadata, p: CargoPackage, fs: Seq<ProjectFact>) -> bool {
    exists|f: ProjectFact| #[trigger] fs.contains(f) && package_fact(m.workspace_root@, p, f)
}

pub open spec fn has_member_fact(m: CargoMetadata, p: CargoPackage, fs: Seq<ProjectFact>) -> bool {
    exists|f: ProjectFact| #[trigger] fs.contains(f) && member_fact(m.workspace_root@, p, f)
}

pub open spec fn has_artifacts(m: CargoMetadata, p: CargoPackage, a: Seq<Artifact>) -> bool {
    &&& exists|x: Artifact| #[trigger] a.contains(x) && package_artifact(m.workspace_root@, p, x)
    &&& exists|x: Artifact| #[trigger] a.contains(x) && manifest_artifact(m.workspace_root@, p, x)
}

/// `r` is what the metadata and manifest texts of a workspace give.
pub open spec fn extracted_from(m: CargoMetadata, texts: Seq<(String, String)>, r: CargoFacts) -> bool {
    let pk = m.packages@;
    &&& sorted_le(r.facts@)
    &&& forall|f: ProjectFact| #[trigger] r.facts@.contains(f) ==> exists|i: int| 0 <= i < pk.len() && fact_of_package(m, texts, #[trigger] pk[i], f)
    &&& forall|i: int| 0 <= i < pk.len() ==> has_package_fact(m, #[trigger] pk[i], r.facts@)
    &&& forall|i: int| 0 <= i < pk.len() && is_member(m, pk[i]) ==> has_member_fact(m, #[trigger] pk[i], r.facts@)
    &&& forall|i: int, j: int| 0 <= i < pk.len() && 0 <= j < pk[i].dependencies@.len() ==> has_dependency_fact(
        m,
        texts,
        pk[i],
        #[trigger] pk[i].dependencies@[j],
        r.facts@,
    )
    &&& sorted_le(r.artifacts@)
    &&& forall|a: Artifact| #[trigger] r.artifacts@.contains(a) ==> exists|i: int| 0 <= i < pk.len() && (package_artifact(m.workspace_root@, #[trigger] pk[i], a) || manifest_artifact(m.workspace_root@, pk[i], a))
    &&& forall|i: int| 0 <= i < pk.len() ==> has_artifacts(m, #[trigger] pk[i], r.artifacts@)
    &&& strictly_sorted(r.input_files@)
    &&& forall|x: Seq<char>| #[trigger] set_has(r.input_files@, x) <==> (x == root_manifest(m.workspace_root@) || exists|i: int| 0 <= i < pk.len() && (#[trigger] pk[i]).manifest_path@ == x)
    &&& r.coverage@.len() == 1
    &&& cargo_claim(r.coverage@[0])
}

fn root_manifest_exec(root: &str) -> (r: String)
    ensures
        r@ == root_manifest(root@),
{
    let c = chars_of(root);
    if c.len() == 0 {
        own("Cargo.toml")
    } else if c[c.len() - 1] == '/' {
        cat(root, "Cargo.toml")
    } else {
        cat(root, "/Cargo.toml")
    }
}

fn cargo_coverage() -> (c: FactCoverage)
    ensures
        cargo_claim(c),
{
    let qualifiers: Vec<(String, String)> = vec![
        (own("identity"), own("actual_package_name")),
        (own("kind"), own("normal")),
        (own("optional"), own("false")),
        (own("sources"), own("path,registry,git")),
        (own("target"), own("unconditional")),
    ];
    proof {
        assert(pair_views(qualifiers@) =~= seq![
            ("identity"@, "actual_package_name"@),
            ("kind"@, "normal"@),
            ("optional"@, "false"@),
            ("sources"@, "path,registry,git"@),
            ("target"@, "unconditional"@),
        ]);
    }
    FactCoverage {
        relation: own("declares_direct_dependency"),
        provider: own("cargo_metadata"),
        world: WorldAssumption::Closed,
        scope: CoverageScope::Global,
        qualifiers,
        statement: own("all unconditional, non-optional normal direct dependency declarations in workspace manifests are enumerated"),
        diagnostics: Vec::new(),
    }
}

proof fn lemma_prefix_contains<T>(s0: Seq<T>, s1: Seq<T>, x: T)
    requires
        s0.len() <= s1.len(),
        forall|q: int| 0 <= q < s0.len() ==> s1[q] == s0[q],
        s0.contains(x),
    ensures
        s1.contains(x),
{
    let k = choose|k: int| 0 <= k < s0.len() && s0[k] == x;
    assert(s1[k] == x);
}

fn collect_facts(m: &CargoMetadata, manifests: &Vec<(String, String)>) -> (facts: Vec<ProjectFact>)
    ensures
        forall|f: ProjectFact| #[trigger] facts@.contains(f) ==> exists|q: int| 0 <= q < m.packages@.len() && fact_of_package(*m, manifests@, #[trigger] m.packages@[q], f),
        forall|q: int| 0 <= q < m.packages@.len() ==> has_package_fact(*m, #[trigger] m.packages@[q], facts@),
        forall|q: int| 0 <= q < m.packages@.len() && is_member(*m, m.packages@[q]) ==> has_member_fact(*m, #[trigger] m.packages@[q], facts@),
        forall|q: int, j: int| 0 <= q < m.packages@.len() && 0 <= j < m.packages@[q].dependencies@.len() ==> has_dependency_fact(
            *m,
            manifests@,
            m.packages@[q],
            #[trigger] m.packages@[q].dependencies@[j],
            facts@,
        ),
{
    let ghost pk = m.packages@;
    let mut facts: Vec<ProjectFact> = Vec::new();
    let mut i: usize = 0;
    while i < m.packages.len()
        invariant
            i <= pk.len(),
            pk == m.packages@,
            forall|f: ProjectFact| #[trigger] facts@.contains(f) ==> exists|q: int| 0 <= q < i && fact_of_package(*m, manifests@, #[trigger] pk[q], f),
            forall|q: int| 0 <= q < i ==> has_package_fact(*m, #[trigger] pk[q], facts@),
            forall|q: int| 0 <= q < i && is_member(*m, pk[q]) ==> has_member_fact(*m, #[trigger] pk[q], facts@),
            forall|q: int, j: int| 0 <= q < i && 0 <= j < pk[q].dependencies@.len() ==> has_dependency_fact(
                *m,
                manifests@,
                pk[q],
                #[trigger] pk[q].dependencies@[j],
                facts@,
            ),
        decreases pk.len() - i,
    {
        let ghost f0 = facts@;
        push_package_facts(m, manifests, &m.packages[i], &mut facts);
        proof {
            assert forall|f: ProjectFact| #[trigger] facts@.contains(f) implies exists|q: int| 0 <= q < i + 1 && fact_of_package(*m, manifests@, #[trigger] pk[q], f) by {
                let k = choose|k: int| 0 <= k < facts@.len() && facts@[k] == f;
                if k < f0.len() {
                    assert(f0[k] == f);
                    assert(f0.contains(f));
                } else {
                    assert(fact_of_package(*m, manifests@, pk[i as int], facts@[k]));
                }
            };
            assert forall|q: int| 0 <= q < i implies has_package_fact(*m, #[trigger] pk[q], facts@) by {
                let f = choose|f: ProjectFact| #[trigger] f0.contains(f) && package_fact(m.workspace_root@, pk[q], f);
                lemma_prefix_contains(f0, facts@, f);
            };
            assert forall|q: int| 0 <= q < i && is_member(*m, pk[q]) implies has_member_fact(*m, #[trigger] pk[q], facts@) by {
                let f = choose|f: ProjectFact| #[trigger] f0.contains(f) && member_fact(m.workspace_root@, pk[q], f);
                lemma_prefix_contains(f0, facts@, f);
            };
            assert forall|q: int, j: int| 0 <= q < i && 0 <= j < pk[q].dependencies@.len() implies has_dependency_fact(
                *m,
                manifests@,
                pk[q],
                #[trigger] pk[q].dependencies@[j],
                facts@,
            ) by {
                let f = choose|f: ProjectFact| #[trigger] f0.contains(f) && dependency_fact(m.workspace_root@, manifests@, pk[q], pk[q].dependencies@[j], f);
                lemma_prefix_contains(f0, facts@, f);
            };
        }
        i = i + 1;
    }
    facts
}

fn collect_artifacts(m: &CargoMetadata) -> (artifacts: Vec<Artifact>)
    ensures
        forall|a: Artifact| #[trigger] artifacts@.contains(a) ==> exists|q: int| 0 <= q < m.packages@.len() && (package_artifact(m.workspace_root@, #[trigger] m.packages@[q], a) || manifest_artifact(m.workspace_root@, m.packages@[q], a)),
        forall|q: int| 0 <= q < m.packages@.len() ==> has_artifacts(*m, #[trigger] m.packages@[q], artifacts@),
{
    let ghost pk = m.packages@;
    let mut artifacts: Vec<Artifact> = Vec::new();
    let mut i: usize = 0;
    while i < m.packages.len()
        invariant
            i <= pk.len(),
            pk == m.packages@,
            forall|a: Artifact| #[trigger] artifacts@.contains(a) ==> exists|q: int| 0 <= q < i && (package_artifact(m.workspace_root@, #[trigger] pk[q], a) || manifest_artifact(m.workspace_root@, pk[q], a)),
            forall|q: int| 0 <= q < i ==> has_artifacts(*m, #[trigger] pk[q], artifacts@),
        decreases pk.len() - i,
    {
        let p = &m.packages[i];
        let rel = relative_to_exec(m.workspace_root.as_str(), p.manifest_path.as_str());
        let pa = Artifact { id: ArtifactId(cat("package:", p.name.as_str())), kind: own("cargo_package"), provenance: extracted_provenance(&rel, None) };
        let ma = Artifact { id: ArtifactId(rel.clone()), kind: own("cargo_manifest"), provenance: extracted_provenance(&rel, None) };
        let ghost a0 = artifacts@;
        artifacts.push(pa);
        artifacts.push(ma);
        proof {
            assert(artifacts@[a0.len() as int] == pa);
            assert(artifacts@[a0.len() as int + 1] == ma);
            assert forall|a: Artifact| #[trigger] artifacts@.contains(a) implies exists|q: int| 0 <= q < i + 1 && (package_artifact(m.workspace_root@, #[trigger] pk[q], a) || manifest_artifact(m.workspace_root@, pk[q], a)) by {
                let k = choose|k: int| 0 <= k < artifacts@.len() && artifacts@[k] == a;
                if k < a0.len() {
                    assert(a0[k] == a);
                    assert(a0.contains(a));
                } else if k == a0.len() {
                    assert(package_artifact(m.workspace_root@, pk[i as int], a));
                } else {
                    assert(manifest_artifact(m.workspace_root@, pk[i as int], a));
                }
            };
            assert forall|q: int| 0 <= q < i + 1 implies has_artifacts(*m, #[trigger] pk[q], artifacts@) by {
                if q < i {
                    let x = choose|x: Artifact| #[trigger] a0.contains(x) && package_artifact(m.workspace_root@, pk[q], x);
                    let y = choose|y: Artifact| #[trigger] a0.contains(y) && manifest_artifact(m.workspace_root@, pk[q], y);
                    lemma_prefix_contains(a0, artifacts@, x);
                    lemma_prefix_contains(a0, artifacts@, y);
                } else {
                    assert(artifacts@.contains(pa));
                    assert(artifacts@.contains(ma));
                }
            };
        }
        i = i + 1;
    }
    artifacts
}

fn collect_inputs(m: &CargoMetadata) -> (inputs: Vec<String>)
    ensures
        strictly_sorted(inputs@),
        forall|x: Seq<char>| #[trigger] set_has(inputs@, x) <==> (x == root_manifest(m.workspace_root@) || exists|q: int| 0 <= q < m.packages@.len() && (#[trigger] m.packages@[q]).manifest_path@ == x),
{
    let ghost pk = m.packages@;
    let mut inputs: Vec<String> = Vec::new();
    let rm = root_manifest_exec(m.workspace_root.as_str());
    let ghost e0 = inputs@;
    upsert(&mut inputs, rm);
    proof {
        assert forall|x: Seq<char>| #[trigger] set_has(inputs@, x) <==> (x == root_manifest(m.workspace_root@) || exists|q: int| 0 <= q < 0 && (#[trigger] pk[q]).manifest_path@ == x) by {
            assert(e0.len() == 0);
            assert(has_key(inputs@, x) <==> (has_key(e0, x) || x == rm@));
            if set_has(inputs@, x) {
                let k = choose|k: int| 0 <= k < inputs@.len() && #[trigger] inputs@[k]@ == x;
                assert(inputs@[k].key() == x);
            }
            if x == rm@ {
                assert(has_key(inputs@, x));
                let k = choose|k: int| 0 <= k < inputs@.len() && #[trigger] inputs@[k].key() == x;
                assert(inputs@[k]@ == x);
            }
        };
    }
    let mut i: usize = 0;
    while i < m.packages.len()
        invariant
            i <= pk.len(),
            pk == m.packages@,
            strictly_sorted(inputs@),
            forall|x: Seq<char>| #[trigger] set_has(inputs@, x) <==> (x == root_manifest(m.workspace_root@) || exists|q: int| 0 <= q < i && (#[trigger] pk[q]).manifest_path@ == x),
        decreases pk.len() - i,
    {
        let ghost in0 = inputs@;
        let p = &m.packages[i];
        upsert(&mut inputs, p.manifest_path.clone());
        proof {
            assert forall|x: Seq<char>| #[trigger] set_has(inputs@, x) <==> (x == root_manifest(m.workspace_root@) || exists|q: int| 0 <= q < i + 1 && (#[trigger] pk[q]).manifest_path@ == x) by {
                assert(has_key(inputs@, x) <==> (has_key(in0, x) || x == p.manifest_path@));
                assert(set_has(in0, x) <==> (x == root_manifest(m.workspace_root@) || exists|q: int| 0 <= q < i && (#[trigger] pk[q]).manifest_path@ == x));
                if set_has(inputs@, x) {
                    let k = choose|k: int| 0 <= k < inputs@.len() && #[trigger] inputs@[k]@ == x;
                    assert(inputs@[k].key() == x);
                }
                if has_key(inputs@, x) {
                    let k = choose|k: int| 0 <= k < inputs@.len() && #[trigger] inputs@[k].key() == x;
                    assert(inputs@[k]@ == x);
                }
                if set_has(in0, x) {
                    let k = choose|k: int| 0 <= k < in0.len() && #[trigger] in0[k]@ == x;
                    assert(in0[k].key() == x);
                }
                if has_key(in0, x) {
                    let k = choose|k: int| 0 <= k < in0.len() && #[trigger] in0[k].key() == x;
                    assert(in0[k]@ == x);
                }
                if exists|q: int| 0 <= q < i + 1 && (#[trigger] pk[q]).manifest_path@ == x {
                    let q = choose|q: int| 0 <= q < i + 1 && (#[trigger] pk[q]).manifest_path@ == x;
                    if q < i {
                        assert(exists|q2: int| 0 <= q2 < i && (#[trigger] pk[q2]).manifest_path@ == x);
                    }
                }
            };
        }
        i = i + 1;
    }
    inputs
}

proof fn lemma_sorted_same_elements<T>(a: Seq<T>, b: Seq<T>, x: T)
    requires
        a.to_multiset() == b.to_multiset(),
    ensures
        a.contains(x) <==> b.contains(x),
{
    broadcast use vstd::seq_lib::group_seq_properties;
    broadcast use vstd::multiset::group_multiset_axioms;
    if a.contains(x) {
        assert(a.to_multiset().count(x) > 0);
    }
    if b.contains(x) {
        assert(b.to_multiset().count(x) > 0);
    }
}

/// The facts, artifacts, inputs and coverage claim of a workspace, from the
/// metadata Cargo reports for it and the text of its manifests.
pub fn extract_facts(metadata: &CargoMetadata, manifests: &Vec<(String, String)>) -> (r: CargoFacts)
    ensures
        extracted_from(*metadata, manifests@, r),
{
    let m = metadata;
    let ghost pk = m.packages@;
    let facts = collect_facts(m, manifests);
    let artifacts = collect_artifacts(m);
    let inputs = collect_inputs(m);
    let ghost fb = facts@;
    let ghost ab = artifacts@;
    let facts = sort_stable(facts);
    let artifacts = sort_stable(artifacts);
    let r = CargoFacts { artifacts, facts, input_files: inputs, coverage: vec![cargo_coverage()] };
    proof {
        assert forall|f: ProjectFact| #[trigger] r.facts@.contains(f) implies exists|q: int| 0 <= q < pk.len() && fact_of_package(*m, manifests@, #[trigger] pk[q], f) by {
            lemma_sorted_same_elements(r.facts@, fb, f);
        };
        assert forall|a: Artifact| #[trigger] r.artifacts@.contains(a) implies exists|q: int| 0 <= q < pk.len() && (package_artifact(m.workspace_root@, #[trigger] pk[q], a) || manifest_artifact(m.workspace_root@, pk[q], a)) by {
            lemma_sorted_same_elements(r.artifacts@, ab, a);
        };
        assert forall|q: int| 0 <= q < pk.len() implies has_package_fact(*m, #[trigger] pk[q], r.facts@) by {
            let f = choose|f: ProjectFact| #[trigger] fb.contains(f) && package_fact(m.workspace_root@, pk[q], f);
            lemma_sorted_same_elements(r.facts@, fb, f);
        };
        assert forall|q: int| 0 <= q < pk.len() && is_member(*m, pk[q]) implies has_member_fact(*m, #[trigger] pk[q], r.facts@) by {
            let f = choose|f: ProjectFact| #[trigger] fb.contains(f) && member_fact(m.workspace_root@, pk[q], f);
            lemma_sorted_same_elements(r.facts@, fb, f);
        };
        assert forall|q: int, j: int| 0 <= q < pk.len() && 0 <= j < pk[q].dependencies@.len() implies has_dependency_fact(
            *m,
            manifests@,
            pk[q],
            #[trigger] pk[q].dependencies@[j],
            r.facts@,
        ) by {
            let f = choose|f: ProjectFact| #[trigger] fb.contains(f) && dependency_fact(m.workspace_root@, manifests@, pk[q], pk[q].dependencies@[j], f);
            lemma_sorted_same_elements(r.facts@, fb, f);
        };
        assert forall|q: int| 0 <= q < pk.len() implies has_artifacts(*m, #[trigger] pk[q], r.artifacts@) by {
            let x = choose|x: Artifact| #[trigger] ab.contains(x) && package_artifact(m.workspace_root@, pk[q], x);
            let y = choose|y: Artifact| #[trigger] ab.contains(y) && manifest_artifact(m.workspace_root@, pk[q], y);
            lemma_sorted_same_elements(r.artifacts@, ab, x);
            lemma_sorted_same_elements(r.artifacts@, ab, y);
        };
        assert(cargo_claim(r.coverage@[0]));
    }
    r
}

/// A workspace to read facts from.
#[derive(Debug)]
pub struct CargoMetadataProvider {
    pub workspace_root: String,
}

impl CargoMetadataProvider {
    /// A provider for `root` when it holds a `Cargo.toml`.
    pub fn discover(root: &str, has_manifest: bool) -> (r: Option<Self>)
        ensures
            r matches Some(p) ==> has_manifest && p.workspace_root@ == root@,
            r is None <==> !has_manifest,
    {
        if has_manifest {
            Some(CargoMetadataProvider { workspace_root: own(root) })
        } else {
            None
        }
    }
}

} // verus!
