//! Facts of the database schema that a series of PostgreSQL migrations leaves
//! behind: the effective schema as data, and the facts it yields.

use vstd::prelude::*;
use crate::adr::strs;
use crate::cargo::pair_views;
use crate::keyed::{Keyed, set_has, strictly_sorted, upsert};
use crate::project::{Artifact, CoverageScope, FactCoverage, FactId, ProjectFact, Provenance, ProvenanceKind, SourceSpan};
use crate::sorting::{Ordered, lemma_map_multiset, sort_stable, sorted_le};
use crate::text::{cat, chars_of, first_index_of, lemma_lt_total, lemma_lt_transitive, own, seq_lt, str_eq, str_lt};
use crate::adr::Error;

verus! {

// ---------------------------------------------------------------------------
// What a migration series reports
// ---------------------------------------------------------------------------

/// What a statement the facts do not interpret may do to the schema.
#[derive(Debug)]
pub enum SchemaEffect {
    KnownIrrelevantToSchema,
    KnownSchemaEffect { scope: CoverageScope, relations: Vec<String> },
    UnknownSchemaEffect,
}

/// A statement the facts do not interpret, where it stands and what it may do.
#[derive(Debug)]
pub struct UnsupportedSql {
    pub source: String,
    pub line: usize,
    pub statement: String,
    pub reason: String,
    pub effect: SchemaEffect,
}

/// Everything read from a migration series.
#[derive(Debug)]
pub struct SqlMigrationFacts {
    pub artifacts: Vec<Artifact>,
    pub facts: Vec<ProjectFact>,
    pub input_files: Vec<String>,
    pub coverage: Vec<FactCoverage>,
    pub unsupported: Vec<UnsupportedSql>,
    pub migration_count: usize,
}

/// A project whose migrations lie under `migration_root`.
#[derive(Debug)]
pub struct PostgresMigrationFactProvider {
    pub project_root: String,
    pub migration_root: String,
    pub default_schema: String,
}

impl PostgresMigrationFactProvider {
    /// A provider for `project_root` when it has a `migrations` directory, with
    /// `public` as the default schema.
    pub fn discover(project_root: &str, has_migrations_dir: bool) -> (r: Option<Self>)
        ensures
            r is Some <==> has_migrations_dir,
            r matches Some(p) ==> {
                &&& p.project_root@ == project_root@
                &&& p.migration_root@ == crate::roots::joined(project_root@, "migrations"@)
                &&& p.default_schema@ == "public"@
            },
    {
        if has_migrations_dir {
            Some(PostgresMigrationFactProvider {
                project_root: own(project_root),
                migration_root: crate::roots::join_exec(project_root, "migrations"),
                default_schema: own("public"),
            })
        } else {
            None
        }
    }
}

// ---------------------------------------------------------------------------
// The effective schema
// ---------------------------------------------------------------------------

/// A table constraint as the migrations leave it.
#[derive(Debug)]
pub enum ConstraintState {
    Primary { columns: Vec<String>, provenance: Provenance },
    Unique { columns: Vec<String>, provenance: Provenance },
    Foreign { columns: Vec<String>, target_table: String, target_columns: Vec<String>, provenance: Provenance },
    Check { expression: String, provenance: Provenance },
}

/// A named constraint of a table.
#[derive(Debug)]
pub struct NamedConstraint {
    pub name: String,
    pub state: ConstraintState,
}

/// A column: its type, where it was declared, and where it was made `NOT NULL`.
#[derive(Debug)]
pub struct ColumnState {
    pub name: String,
    pub data_type: String,
    pub provenance: Provenance,
    pub explicit_not_null: Option<Provenance>,
}

/// A table with its columns and constraints, each list in name order.
#[derive(Debug)]
pub struct TableState {
    pub name: String,
    pub provenance: Provenance,
    pub columns: Vec<ColumnState>,
    pub constraints: Vec<NamedConstraint>,
}

/// A named object and where it was created.
#[derive(Debug)]
pub struct NamedSource {
    pub name: String,
    pub provenance: Provenance,
}

/// A partition of a parent table, with its bound as syntax-tree JSON.
#[derive(Debug)]
pub struct Partition {
    pub child: String,
    pub parent: String,
    pub provenance: Provenance,
    pub bound: String,
}

/// A table and the tables it inherits from, in the order they were named.
#[derive(Debug)]
pub struct Inheritance {
    pub child: String,
    pub parents: Vec<NamedSource>,
}

/// The schema the migrations leave behind. Each list is keyed by name (by child
/// for partitions and inheritance) and held in key order.
#[derive(Debug)]
pub struct EffectiveDatabaseSchema {
    pub schemas: Vec<NamedSource>,
    pub tables: Vec<TableState>,
    pub materialized_views: Vec<NamedSource>,
    pub partitions: Vec<Partition>,
    pub inheritance: Vec<Inheritance>,
}

/// The names are in strictly increasing order.
pub open spec fn names_ascending(s: Seq<Seq<char>>) -> bool {
    forall|i: int, j: int| #![trigger s[i], s[j]] 0 <= i < j < s.len() ==> seq_lt(s[i], s[j])
}

pub open spec fn source_names(s: Seq<NamedSource>) -> Seq<Seq<char>> {
    s.map_values(|x: NamedSource| x.name@)
}

pub open spec fn table_well_formed(t: TableState) -> bool {
    &&& names_ascending(t.columns@.map_values(|c: ColumnState| c.name@))
    &&& names_ascending(t.constraints@.map_values(|c: NamedConstraint| c.name@))
}

/// Every list is in strictly increasing key order, as a map keyed by name holds it.
pub open spec fn schema_well_formed(s: EffectiveDatabaseSchema) -> bool {
    &&& names_ascending(source_names(s.schemas@))
    &&& names_ascending(s.tables@.map_values(|t: TableState| t.name@))
    &&& forall|i: int| 0 <= i < s.tables@.len() ==> table_well_formed(#[trigger] s.tables@[i])
    &&& names_ascending(source_names(s.materialized_views@))
    &&& names_ascending(s.partitions@.map_values(|p: Partition| p.child@))
    &&& names_ascending(s.inheritance@.map_values(|h: Inheritance| h.child@))
}

// ---------------------------------------------------------------------------
// Facts as text
// ---------------------------------------------------------------------------

pub struct SpanView {
    pub filename: Seq<char>,
    pub line: usize,
    pub column: usize,
}

pub struct ProvView {
    pub kind: ProvenanceKind,
    pub source: Seq<char>,
    pub span: Option<SpanView>,
    pub extractor: Option<Seq<char>>,
}

pub struct FactView {
    pub id: Seq<char>,
    pub relation: Seq<char>,
    pub arguments: Seq<Seq<char>>,
    pub value: bool,
    pub attributes: Seq<(Seq<char>, Seq<char>)>,
    pub provenance: ProvView,
}

pub open spec fn prov_view(p: Provenance) -> ProvView {
    ProvView {
        kind: p.kind,
        source: p.source@,
        span: match p.span {
            Some(s) => Some(SpanView { filename: s.filename@, line: s.line, column: s.column }),
            None => None,
        },
        extractor: match p.extractor {
            Some(e) => Some(e@),
            None => None,
        },
    }
}

pub open spec fn fact_view(f: ProjectFact) -> FactView {
    FactView {
        id: f.id.0@,
        relation: f.relation@,
        arguments: strs(f.arguments@),
        value: f.value,
        attributes: pair_views(f.attributes@),
        provenance: prov_view(f.provenance),
    }
}

pub open spec fn fact_views(s: Seq<ProjectFact>) -> Seq<FactView> {
    s.map_values(|f: ProjectFact| fact_view(f))
}

/// A fact that holds, with its identifier, relation, arguments, attributes and provenance.
pub open spec fn fv(
    id: Seq<char>,
    relation: Seq<char>,
    arguments: Seq<Seq<char>>,
    attributes: Seq<(Seq<char>, Seq<char>)>,
    provenance: ProvView,
) -> FactView {
    FactView { id, relation, arguments, value: true, attributes, provenance }
}

/// The items joined with `,`.
pub open spec fn join_commas(s: Seq<Seq<char>>) -> Seq<char>
    decreases s.len(),
{
    if s.len() == 0 {
        Seq::empty()
    } else if s.len() == 1 {
        s[0]
    } else {
        join_commas(s.drop_last()) + ","@ + s.last()
    }
}

fn join_commas_exec(v: &Vec<String>) -> (r: String)
    ensures
        r@ == join_commas(strs(v@)),
{
    let mut r = String::new();
    let mut i: usize = 0;
    while i < v.len()
        invariant
            i <= v@.len(),
            r@ == join_commas(strs(v@.take(i as int))),
        decreases v.len() - i,
    {
        proof {
            assert(strs(v@.take(i + 1)).drop_last() =~= strs(v@.take(i as int)));
            assert(strs(v@.take(i + 1)).last() == v@[i as int]@);
        }
        if i == 0 {
            r = v[0].clone();
        } else {
            r.append(",");
            r.append(v[i].as_str());
        }
        i = i + 1;
    }
    proof {
        assert(v@.take(v@.len() as int) =~= v@);
    }
    r
}

fn fact(id: String, relation: &str, arguments: Vec<String>, provenance: Provenance, attributes: Vec<(String, String)>) -> (f: ProjectFact)
    ensures
        fact_view(f) == fv(id@, relation@, strs(arguments@), pair_views(attributes@), prov_view(provenance)),
{
    ProjectFact { id: FactId(id), relation: own(relation), arguments, value: true, attributes, provenance }
}

fn one_attribute(key: &str, value: String) -> (r: Vec<(String, String)>)
    ensures
        pair_views(r@) == seq![(key@, value@)],
{
    let mut r: Vec<(String, String)> = Vec::new();
    r.push((own(key), value));
    proof {
        assert(pair_views(r@) =~= seq![(key@, value@)]);
    }
    r
}

fn two(a: &String, b: &String) -> (r: Vec<String>)
    ensures
        strs(r@) == seq![a@, b@],
{
    let mut r: Vec<String> = Vec::new();
    r.push(a.clone());
    r.push(b.clone());
    proof {
        assert(strs(r@) =~= seq![a@, b@]);
    }
    r
}

// ---------------------------------------------------------------------------
// The facts a schema yields
// ---------------------------------------------------------------------------

pub open spec fn constraint_provenance(c: ConstraintState) -> Provenance {
    match c {
        ConstraintState::Primary { provenance, .. } => provenance,
        ConstraintState::Unique { provenance, .. } => provenance,
        ConstraintState::Foreign { provenance, .. } => provenance,
        ConstraintState::Check { provenance, .. } => provenance,
    }
}

/// The position of the first primary key among the constraints from `i` on.
pub open spec fn first_primary_from(cs: Seq<NamedConstraint>, i: int) -> Option<int>
    decreases cs.len() - i,
{
    if i < 0 || i >= cs.len() {
        None
    } else if cs[i].state is Primary {
        Some(i)
    } else {
        first_primary_from(cs, i + 1)
    }
}

/// `prefix`, `a`, `:` and `b`.
pub open spec fn pair_id(prefix: Seq<char>, a: Seq<char>, b: Seq<char>) -> Seq<char> {
    prefix + a + ":"@ + b
}

/// The `NOT NULL` fact of a column: from its explicit constraint, else from the
/// table's first primary key when that key holds the column; none otherwise.
pub open spec fn not_null_facts(t: TableState, c: ColumnState) -> Seq<FactView> {
    let id = pair_id("sql:not-null:"@, t.name@, c.name@);
    let args = seq![t.name@, c.name@];
    match c.explicit_not_null {
        Some(p) => seq![fv(id, "column_not_null"@, args, seq![("basis"@, "explicit"@)], prov_view(p))],
        None => match first_primary_from(t.constraints@, 0) {
            Some(i) => match t.constraints@[i].state {
                ConstraintState::Primary { columns, provenance } => if set_has(columns@, c.name@) {
                    seq![fv(id, "column_not_null"@, args, seq![("basis"@, "primary_key_semantics"@)], prov_view(provenance))]
                } else {
                    Seq::empty()
                },
                _ => Seq::empty(),
            },
            None => Seq::empty(),
        },
    }
}

/// A column yields its existence, its type and, where it has one, its `NOT NULL`.
pub open spec fn column_facts(t: TableState, c: ColumnState) -> Seq<FactView> {
    seq![
        fv(pair_id("sql:column:"@, t.name@, c.name@), "column"@, seq![t.name@, c.name@], Seq::empty(), prov_view(c.provenance)),
        fv(pair_id("sql:column-type:"@, t.name@, c.name@), "column_type"@, seq![t.name@, c.name@, c.data_type@], Seq::empty(), prov_view(c.provenance)),
    ] + not_null_facts(t, c)
}

pub open spec fn columns_facts(t: TableState, k: int) -> Seq<FactView>
    decreases k,
{
    if k <= 0 {
        Seq::empty()
    } else {
        columns_facts(t, k - 1) + column_facts(t, t.columns@[k - 1])
    }
}

/// The fact of a named constraint, by its kind.
pub open spec fn constraint_fact(t: TableState, nc: NamedConstraint) -> FactView {
    let tn = t.name@;
    let n = nc.name@;
    let named = seq![("constraint_name"@, n)];
    match nc.state {
        ConstraintState::Primary { columns, provenance } =>
            fv(pair_id("sql:primary_key:"@, tn, n), "primary_key"@, seq![tn, join_commas(strs(columns@))], named, prov_view(provenance)),
        ConstraintState::Unique { columns, provenance } =>
            fv(pair_id("sql:unique_constraint:"@, tn, n), "unique_constraint"@, seq![tn, join_commas(strs(columns@))], named, prov_view(provenance)),
        ConstraintState::Foreign { columns, target_table, target_columns, provenance } => fv(
            pair_id("sql:foreign_key:"@, tn, n),
            "foreign_key"@,
            seq![tn, join_commas(strs(columns@)), target_table@, join_commas(strs(target_columns@))],
            named,
            prov_view(provenance),
        ),
        ConstraintState::Check { expression, provenance } =>
            fv(pair_id("sql:check_constraint:"@, tn, n), "check_constraint"@, seq![tn, n], seq![("expression_ast_json"@, expression@)], prov_view(provenance)),
    }
}

pub open spec fn constraints_facts(t: TableState, k: int) -> Seq<FactView>
    decreases k,
{
    if k <= 0 {
        Seq::empty()
    } else {
        constraints_facts(t, k - 1).push(constraint_fact(t, t.constraints@[k - 1]))
    }
}

/// A table yields its existence, then its columns' facts, then its constraints'.
pub open spec fn table_facts(t: TableState) -> Seq<FactView> {
    seq![fv("sql:table:"@ + t.name@, "table"@, seq![t.name@], Seq::empty(), prov_view(t.provenance))]
        + columns_facts(t, t.columns@.len() as int) + constraints_facts(t, t.constraints@.len() as int)
}

pub open spec fn tables_facts(ts: Seq<TableState>, k: int) -> Seq<FactView>
    decreases k,
{
    if k <= 0 {
        Seq::empty()
    } else {
        tables_facts(ts, k - 1) + table_facts(ts[k - 1])
    }
}

/// One fact per named object: `prefix` and the name as identifier, the name as argument.
pub open spec fn named_facts(prefix: Seq<char>, relation: Seq<char>, s: Seq<NamedSource>, k: int) -> Seq<FactView>
    decreases k,
{
    if k <= 0 {
        Seq::empty()
    } else {
        named_facts(prefix, relation, s, k - 1).push(
            fv(prefix + s[k - 1].name@, relation, seq![s[k - 1].name@], Seq::empty(), prov_view(s[k - 1].provenance)),
        )
    }
}

pub open spec fn partition_facts(ps: Seq<Partition>, k: int) -> Seq<FactView>
    decreases k,
{
    if k <= 0 {
        Seq::empty()
    } else {
        let p = ps[k - 1];
        partition_facts(ps, k - 1).push(fv(
            pair_id("sql:partition-of:"@, p.child@, p.parent@),
            "partition_of"@,
            seq![p.child@, p.parent@],
            seq![("partition_bound_ast_json"@, p.bound@)],
            prov_view(p.provenance),
        ))
    }
}

pub open spec fn parents_facts(child: Seq<char>, ps: Seq<NamedSource>, k: int) -> Seq<FactView>
    decreases k,
{
    if k <= 0 {
        Seq::empty()
    } else {
        parents_facts(child, ps, k - 1).push(
            fv(pair_id("sql:inherits:"@, child, ps[k - 1].name@), "inherits"@, seq![child, ps[k - 1].name@], Seq::empty(), prov_view(ps[k - 1].provenance)),
        )
    }
}

pub open spec fn inheritance_facts(hs: Seq<Inheritance>, k: int) -> Seq<FactView>
    decreases k,
{
    if k <= 0 {
        Seq::empty()
    } else {
        inheritance_facts(hs, k - 1) + parents_facts(hs[k - 1].child@, hs[k - 1].parents@, hs[k - 1].parents@.len() as int)
    }
}

pub open spec fn parser_name() -> Seq<char> {
    "pg_query 6.2.0 / PostgreSQL parser"@
}

/// Provenance of what the parser extracted at line `line` of `source`.
pub open spec fn extracted_at(source: Seq<char>, line: usize) -> ProvView {
    ProvView {
        kind: ProvenanceKind::DeterministicallyExtracted,
        source,
        span: Some(SpanView { filename: source, line, column: 1 }),
        extractor: Some(parser_name()),
    }
}

/// One fact per migration file, named by its path relative to the project root.
pub open spec fn migration_facts(root: Seq<char>, ms: Seq<(u64, String)>, k: int) -> Seq<FactView>
    decreases k,
{
    if k <= 0 {
        Seq::empty()
    } else {
        let rel = crate::cargo::relative_to(root, ms[k - 1].1@);
        migration_facts(root, ms, k - 1).push(fv("sql:migration:"@ + rel, "migration"@, seq![rel], Seq::empty(), extracted_at(rel, 1)))
    }
}

/// Every fact of a schema and its migrations, in the order they are produced:
/// migrations, schemas, tables, materialized views, partitions, inheritance.
pub open spec fn emitted(schema: EffectiveDatabaseSchema, ms: Seq<(u64, String)>, root: Seq<char>) -> Seq<FactView> {
    migration_facts(root, ms, ms.len() as int)
        + named_facts("sql:schema:"@, "schema"@, schema.schemas@, schema.schemas@.len() as int)
        + tables_facts(schema.tables@, schema.tables@.len() as int)
        + named_facts("sql:materialized-view:"@, "materialized_view"@, schema.materialized_views@, schema.materialized_views@.len() as int)
        + partition_facts(schema.partitions@, schema.partitions@.len() as int)
        + inheritance_facts(schema.inheritance@, schema.inheritance@.len() as int)
}

// ---------------------------------------------------------------------------
// Emitting them
// ---------------------------------------------------------------------------

fn push_fact(facts: &mut Vec<ProjectFact>, f: ProjectFact)
    ensures
        fact_views(final(facts)@) == fact_views(old(facts)@).push(fact_view(f)),
{
    facts.push(f);
    proof {
        assert(fact_views(facts@) =~= fact_views(old(facts)@).push(fact_view(f)));
    }
}

fn pair_id_exec(prefix: &str, a: &str, b: &str) -> (r: String)
    ensures
        r@ == pair_id(prefix@, a@, b@),
{
    let mut r = crate::text::cat3(prefix, a, ":");
    r.append(b);
    r
}

fn first_primary(cs: &Vec<NamedConstraint>) -> (r: Option<usize>)
    ensures
        match r {
            Some(i) => first_primary_from(cs@, 0) == Some(i as int),
            None => first_primary_from(cs@, 0) is None,
        },
{
    let mut i: usize = 0;
    while i < cs.len()
        invariant
            i <= cs@.len(),
            first_primary_from(cs@, 0) == first_primary_from(cs@, i as int),
        decreases cs.len() - i,
    {
        if let ConstraintState::Primary { .. } = &cs[i].state {
            return Some(i);
        }
        i = i + 1;
    }
    None
}

fn emit_not_null(t: &TableState, c: &ColumnState, primary: Option<usize>, facts: &mut Vec<ProjectFact>)
    requires
        match primary {
            Some(i) => first_primary_from(t.constraints@, 0) == Some(i as int),
            None => first_primary_from(t.constraints@, 0) is None,
        },
    ensures
        fact_views(final(facts)@) == fact_views(old(facts)@) + not_null_facts(*t, *c),
{
    proof {
        reveal_strlit("explicit");
        reveal_strlit("primary_key_semantics");
        reveal_strlit("basis");
    }
    let id = pair_id_exec("sql:not-null:", t.name.as_str(), c.name.as_str());
    match &c.explicit_not_null {
        Some(p) => {
            let f = fact(id, "column_not_null", two(&t.name, &c.name), p.clone(), one_attribute("basis", own("explicit")));
            push_fact(facts, f);
            proof {
                assert(fact_views(facts@) =~= fact_views(old(facts)@) + not_null_facts(*t, *c));
            }
        },
        None => {
            match primary {
                Some(i) => {
                    proof {
                        assert(0 <= i < t.constraints@.len()) by {
                            lemma_first_primary_in(t.constraints@, 0);
                        }
                    }
                    match &t.constraints[i].state {
                        ConstraintState::Primary { columns, provenance } => {
                            if crate::keyed::contains_str(columns, c.name.as_str()) {
                                let f = fact(
                                    id,
                                    "column_not_null",
                                    two(&t.name, &c.name),
                                    provenance.clone(),
                                    one_attribute("basis", own("primary_key_semantics")),
                                );
                                push_fact(facts, f);
                                proof {
                                    assert(fact_views(facts@) =~= fact_views(old(facts)@) + not_null_facts(*t, *c));
                                }
                            } else {
                                proof {
                                    assert(fact_views(facts@) =~= fact_views(old(facts)@) + not_null_facts(*t, *c));
                                }
                            }
                        },
                        _ => {
                            proof {
                                assert(fact_views(facts@) =~= fact_views(old(facts)@) + not_null_facts(*t, *c));
                            }
                        },
                    }
                },
                None => {
                    proof {
                        assert(fact_views(facts@) =~= fact_views(old(facts)@) + not_null_facts(*t, *c));
                    }
                },
            }
        },
    }
}

proof fn lemma_first_primary_in(cs: Seq<NamedConstraint>, i: int)
    ensures
        first_primary_from(cs, i) matches Some(j) ==> 0 <= j < cs.len() && cs[j].state is Primary,
    decreases cs.len() - i,
{
    if i < 0 || i >= cs.len() {
    } else if cs[i].state is Primary {
    } else {
        lemma_first_primary_in(cs, i + 1);
    }
}

fn emit_column(t: &TableState, c: &ColumnState, primary: Option<usize>, facts: &mut Vec<ProjectFact>)
    requires
        match primary {
            Some(i) => first_primary_from(t.constraints@, 0) == Some(i as int),
            None => first_primary_from(t.constraints@, 0) is None,
        },
    ensures
        fact_views(final(facts)@) == fact_views(old(facts)@) + column_facts(*t, *c),
{
    let ghost f0 = fact_views(facts@);
    let f = fact(pair_id_exec("sql:column:", t.name.as_str(), c.name.as_str()), "column", two(&t.name, &c.name), c.provenance.clone(), Vec::new());
    push_fact(facts, f);
    let mut args = two(&t.name, &c.name);
    let ghost a0 = args@;
    let d = c.data_type.clone();
    args.push(d);
    proof {
        assert(args@ == a0.push(d));
        assert(strs(a0) == seq![t.name@, c.name@]);
        assert(strs(args@)[2] == d@);
        assert(strs(args@) =~= seq![t.name@, c.name@, c.data_type@]);
    }
    let f = fact(pair_id_exec("sql:column-type:", t.name.as_str(), c.name.as_str()), "column_type", args, c.provenance.clone(), Vec::new());
    push_fact(facts, f);
    proof {
        assert(pair_views(Seq::<(String, String)>::empty()) =~= Seq::empty());
    }
    let ghost f2 = fact_views(facts@);
    emit_not_null(t, c, primary, facts);
    proof {
        assert(f2 =~= f0 + column_facts(*t, *c).take(2));
        assert(column_facts(*t, *c) =~= column_facts(*t, *c).take(2) + not_null_facts(*t, *c));
        assert(fact_views(facts@) =~= f0 + column_facts(*t, *c));
    }
}

fn constraint_fact_exec(t: &TableState, nc: &NamedConstraint) -> (f: ProjectFact)
    ensures
        fact_view(f) == constraint_fact(*t, *nc),
{
    let named = one_attribute("constraint_name", nc.name.clone());
    match &nc.state {
        ConstraintState::Primary { columns, provenance } => {
            let args = two(&t.name, &join_commas_exec(columns));
            fact(pair_id_exec("sql:primary_key:", t.name.as_str(), nc.name.as_str()), "primary_key", args, provenance.clone(), named)
        },
        ConstraintState::Unique { columns, provenance } => {
            let args = two(&t.name, &join_commas_exec(columns));
            fact(pair_id_exec("sql:unique_constraint:", t.name.as_str(), nc.name.as_str()), "unique_constraint", args, provenance.clone(), named)
        },
        ConstraintState::Foreign { columns, target_table, target_columns, provenance } => {
            let jc = join_commas_exec(columns);
            let mut args = two(&t.name, &jc);
            let ghost a0 = args@;
            let tt = target_table.clone();
            let tc = join_commas_exec(target_columns);
            args.push(tt);
            args.push(tc);
            proof {
                assert(args@ == a0.push(tt).push(tc));
                assert(strs(a0) == seq![t.name@, jc@]);
                assert(strs(a0).len() == 2);
                assert(a0.len() == 2);
                assert(args@.len() == 4);
                assert(args@[2] == tt);
                assert(strs(args@)[2] == tt@);
                assert(strs(args@)[3] == tc@);
                assert(strs(args@) =~= seq![t.name@, join_commas(strs(columns@)), target_table@, join_commas(strs(target_columns@))]);
            }
            fact(pair_id_exec("sql:foreign_key:", t.name.as_str(), nc.name.as_str()), "foreign_key", args, provenance.clone(), named)
        },
        ConstraintState::Check { expression, provenance } => {
            let attributes = one_attribute("expression_ast_json", expression.clone());
            fact(
                pair_id_exec("sql:check_constraint:", t.name.as_str(), nc.name.as_str()),
                "check_constraint",
                two(&t.name, &nc.name),
                provenance.clone(),
                attributes,
            )
        },
    }
}

fn emit_table(t: &TableState, facts: &mut Vec<ProjectFact>)
    ensures
        fact_views(final(facts)@) == fact_views(old(facts)@) + table_facts(*t),
{
    let ghost f0 = fact_views(facts@);
    let mut args: Vec<String> = Vec::new();
    args.push(t.name.clone());
    let f = fact(cat("sql:table:", t.name.as_str()), "table", args, t.provenance.clone(), Vec::new());
    push_fact(facts, f);
    proof {
        assert(strs(args@) =~= seq![t.name@]);
        assert(pair_views(Seq::<(String, String)>::empty()) =~= Seq::empty());
    }
    let ghost f1 = fact_views(facts@);
    let primary = first_primary(&t.constraints);
    let mut k: usize = 0;
    while k < t.columns.len()
        invariant
            k <= t.columns@.len(),
            match primary {
                Some(i) => first_primary_from(t.constraints@, 0) == Some(i as int),
                None => first_primary_from(t.constraints@, 0) is None,
            },
            fact_views(facts@) == f1 + columns_facts(*t, k as int),
        decreases t.columns.len() - k,
    {
        emit_column(t, &t.columns[k], primary, facts);
        proof {
            assert(fact_views(facts@) =~= f1 + columns_facts(*t, k + 1));
        }
        k = k + 1;
    }
    let ghost f2 = fact_views(facts@);
    let mut k: usize = 0;
    while k < t.constraints.len()
        invariant
            k <= t.constraints@.len(),
            fact_views(facts@) == f2 + constraints_facts(*t, k as int),
        decreases t.constraints.len() - k,
    {
        let f = constraint_fact_exec(t, &t.constraints[k]);
        push_fact(facts, f);
        proof {
            assert(fact_views(facts@) =~= f2 + constraints_facts(*t, k + 1));
        }
        k = k + 1;
    }
    proof {
        assert(fact_views(facts@) =~= f0 + table_facts(*t));
    }
}

fn emit_named(prefix: &str, relation: &str, s: &Vec<NamedSource>, facts: &mut Vec<ProjectFact>)
    ensures
        fact_views(final(facts)@) == fact_views(old(facts)@) + named_facts(prefix@, relation@, s@, s@.len() as int),
{
    let ghost f0 = fact_views(facts@);
    let mut k: usize = 0;
    while k < s.len()
        invariant
            k <= s@.len(),
            fact_views(facts@) == f0 + named_facts(prefix@, relation@, s@, k as int),
        decreases s.len() - k,
    {
        let mut args: Vec<String> = Vec::new();
        args.push(s[k].name.clone());
        let f = fact(cat(prefix, s[k].name.as_str()), relation, args, s[k].provenance.clone(), Vec::new());
        push_fact(facts, f);
        proof {
            assert(strs(args@) =~= seq![s@[k as int].name@]);
            assert(pair_views(Seq::<(String, String)>::empty()) =~= Seq::empty());
            assert(fact_views(facts@) =~= f0 + named_facts(prefix@, relation@, s@, k + 1));
        }
        k = k + 1;
    }
}

fn emit_partitions(ps: &Vec<Partition>, facts: &mut Vec<ProjectFact>)
    ensures
        fact_views(final(facts)@) == fact_views(old(facts)@) + partition_facts(ps@, ps@.len() as int),
{
    let ghost f0 = fact_views(facts@);
    let mut k: usize = 0;
    while k < ps.len()
        invariant
            k <= ps@.len(),
            fact_views(facts@) == f0 + partition_facts(ps@, k as int),
        decreases ps.len() - k,
    {
        let p = &ps[k];
        let attributes = one_attribute("partition_bound_ast_json", p.bound.clone());
        let f = fact(pair_id_exec("sql:partition-of:", p.child.as_str(), p.parent.as_str()), "partition_of", two(&p.child, &p.parent), p.provenance.clone(), attributes);
        push_fact(facts, f);
        proof {
            assert(fact_views(facts@) =~= f0 + partition_facts(ps@, k + 1));
        }
        k = k + 1;
    }
}

fn emit_inheritance(hs: &Vec<Inheritance>, facts: &mut Vec<ProjectFact>)
    ensures
        fact_views(final(facts)@) == fact_views(old(facts)@) + inheritance_facts(hs@, hs@.len() as int),
{
    let ghost f0 = fact_views(facts@);
    let mut k: usize = 0;
    while k < hs.len()
        invariant
            k <= hs@.len(),
            fact_views(facts@) == f0 + inheritance_facts(hs@, k as int),
        decreases hs.len() - k,
    {
        let h = &hs[k];
        let ghost f1 = fact_views(facts@);
        let mut q: usize = 0;
        while q < h.parents.len()
            invariant
                q <= h.parents@.len(),
                fact_views(facts@) == f1 + parents_facts(h.child@, h.parents@, q as int),
            decreases h.parents.len() - q,
        {
            let parent = &h.parents[q];
            let f = fact(
                pair_id_exec("sql:inherits:", h.child.as_str(), parent.name.as_str()),
                "inherits",
                two(&h.child, &parent.name),
                parent.provenance.clone(),
                Vec::new(),
            );
            push_fact(facts, f);
            proof {
                assert(pair_views(Seq::<(String, String)>::empty()) =~= Seq::empty());
                assert(fact_views(facts@) =~= f1 + parents_facts(h.child@, h.parents@, q + 1));
            }
            q = q + 1;
        }
        proof {
            assert(fact_views(facts@) =~= f0 + inheritance_facts(hs@, k + 1));
        }
        k = k + 1;
    }
}

fn migration_provenance(rel: &String) -> (p: Provenance)
    ensures
        prov_view(p) == extracted_at(rel@, 1),
{
    Provenance {
        kind: ProvenanceKind::DeterministicallyExtracted,
        source: rel.clone(),
        span: Some(SourceSpan { filename: rel.clone(), line: 1, column: 1 }),
        extractor: Some(own("pg_query 6.2.0 / PostgreSQL parser")),
    }
}

fn emit_migrations(root: &str, ms: &Vec<(u64, String)>, facts: &mut Vec<ProjectFact>)
    ensures
        fact_views(final(facts)@) == fact_views(old(facts)@) + migration_facts(root@, ms@, ms@.len() as int),
{
    let ghost f0 = fact_views(facts@);
    let mut k: usize = 0;
    while k < ms.len()
        invariant
            k <= ms@.len(),
            fact_views(facts@) == f0 + migration_facts(root@, ms@, k as int),
        decreases ms.len() - k,
    {
        let rel = crate::cargo::relative_to_exec(root, ms[k].1.as_str());
        let mut args: Vec<String> = Vec::new();
        args.push(rel.clone());
        let f = fact(cat("sql:migration:", rel.as_str()), "migration", args, migration_provenance(&rel), Vec::new());
        push_fact(facts, f);
        proof {
            assert(strs(args@) =~= seq![rel@]);
            assert(pair_views(Seq::<(String, String)>::empty()) =~= Seq::empty());
            assert(fact_views(facts@) =~= f0 + migration_facts(root@, ms@, k + 1));
        }
        k = k + 1;
    }
}

impl PostgresMigrationFactProvider {
    /// The facts of the schema the migrations leave behind, sorted by identifier:
    /// one per migration file (its path relative to the project root), schema,
    /// table, column, column type, `NOT NULL` column (explicit, or implied by the
    /// table's first primary key), constraint, materialized view, partition and
    /// inherited parent.
    pub fn emit_facts(&self, schema: &EffectiveDatabaseSchema, migrations: &Vec<(u64, String)>) -> (r: Vec<ProjectFact>)
        requires
            schema_well_formed(*schema),
        ensures
            sorted_le(r@),
            r@.len() == emitted(*schema, migrations@, self.project_root@).len(),
            fact_views(r@).to_multiset() == emitted(*schema, migrations@, self.project_root@).to_multiset(),
    {
        let mut facts: Vec<ProjectFact> = Vec::new();
        emit_migrations(self.project_root.as_str(), migrations, &mut facts);
        emit_named("sql:schema:", "schema", &schema.schemas, &mut facts);
        let ghost f1 = fact_views(facts@);
        let mut k: usize = 0;
        while k < schema.tables.len()
            invariant
                k <= schema.tables@.len(),
                fact_views(facts@) == f1 + tables_facts(schema.tables@, k as int),
            decreases schema.tables.len() - k,
        {
            emit_table(&schema.tables[k], &mut facts);
            proof {
                assert(fact_views(facts@) =~= f1 + tables_facts(schema.tables@, k + 1));
            }
            k = k + 1;
        }
        emit_named("sql:materialized-view:", "materialized_view", &schema.materialized_views, &mut facts);
        emit_partitions(&schema.partitions, &mut facts);
        emit_inheritance(&schema.inheritance, &mut facts);
        proof {
            assert(fact_views(facts@) =~= emitted(*schema, migrations@, self.project_root@));
        }
        let ghost unsorted = facts@;
        let sorted = sort_stable(facts);
        proof {
            lemma_map_multiset(unsorted, sorted@, |f: ProjectFact| fact_view(f));
            assert(fact_views(unsorted).len() == unsorted.len());
        }
        sorted
    }
}

// ---------------------------------------------------------------------------
// The order of the migrations
// ---------------------------------------------------------------------------

/// A migration file with the version its name starts with.
#[derive(Debug)]
pub struct MigrationFile {
    pub version: u64,
    pub path: String,
}

/// Migrations in order of version, then path.
impl Ordered for MigrationFile {
    open spec fn le(&self, other: &Self) -> bool {
        self.version < other.version || (self.version == other.version && (seq_lt(self.path@, other.path@) || self.path@ == other.path@))
    }

    proof fn lemma_le_total(a: &Self, b: &Self) {
        lemma_lt_total(a.path@, b.path@);
    }

    proof fn lemma_le_transitive(a: &Self, b: &Self, c: &Self) {
        if seq_lt(a.path@, b.path@) && seq_lt(b.path@, c.path@) {
            lemma_lt_transitive(a.path@, b.path@, c.path@);
        }
    }

    fn le_exec(&self, other: &Self) -> (r: bool) {
        self.version < other.version || (self.version == other.version && (str_lt(self.path.as_str(), other.path.as_str())
            || str_eq(self.path.as_str(), other.path.as_str())))
    }
}

pub open spec fn ends_in(s: Seq<char>, pat: Seq<char>) -> bool {
    pat.len() <= s.len() && s.subrange(s.len() - pat.len(), s.len() as int) == pat
}

/// A file name that is an up migration: `.sql`, but not `.down.sql`.
pub open spec fn is_migration_name(name: Seq<char>) -> bool {
    ends_in(name, ".sql"@) && !ends_in(name, ".down.sql"@)
}

/// The version a migration name starts with: the text before its first `_`, read
/// as a `u64`; the outer `None` when there is no `_`.
pub open spec fn name_version(name: Seq<char>) -> Option<Option<u64>> {
    match first_index_of(name, '_', 0, name.len() as int) {
        None => None,
        Some(j) => Some(crate::model_stats::parse_u64_text(name.subrange(0, j))),
    }
}

/// What is wrong with the directory entry `(name, path)` as a migration, if anything.
pub open spec fn entry_problem(name: Seq<char>, path: Seq<char>) -> Option<Seq<char>> {
    if !is_migration_name(name) {
        None
    } else {
        match name_version(name) {
            None => Some("migration `"@ + path + "` has no numeric version prefix"@),
            Some(None) => Some("migration `"@ + path + "` has an invalid numeric version prefix"@),
            Some(Some(_)) => None,
        }
    }
}

/// The problem of the first entry from `k` on that has one.
pub open spec fn first_entry_problem(entries: Seq<(String, String)>, k: int) -> Option<Seq<char>>
    decreases entries.len() - k,
{
    if k < 0 || k >= entries.len() {
        None
    } else {
        match entry_problem(entries[k].0@, entries[k].1@) {
            Some(m) => Some(m),
            None => first_entry_problem(entries, k + 1),
        }
    }
}

/// The migrations among the first `k` entries, as (version, path), in entry order.
pub open spec fn listed_migrations(entries: Seq<(String, String)>, k: int) -> Seq<(u64, Seq<char>)>
    decreases k,
{
    if k <= 0 {
        Seq::empty()
    } else {
        let e = entries[k - 1];
        match name_version(e.0@) {
            Some(Some(v)) => if is_migration_name(e.0@) {
                listed_migrations(entries, k - 1).push((v, e.1@))
            } else {
                listed_migrations(entries, k - 1)
            },
            _ => listed_migrations(entries, k - 1),
        }
    }
}

pub open spec fn migration_views(s: Seq<MigrationFile>) -> Seq<(u64, Seq<char>)> {
    s.map_values(|m: MigrationFile| (m.version, m.path@))
}

/// The first position from `i` on where two neighbours share a version.
pub open spec fn first_duplicate(s: Seq<MigrationFile>, i: int) -> Option<int>
    decreases s.len() - i,
{
    if i < 0 || i + 1 >= s.len() {
        None
    } else if s[i].version == s[i + 1].version {
        Some(i)
    } else {
        first_duplicate(s, i + 1)
    }
}

pub open spec fn duplicate_message(a: MigrationFile, b: MigrationFile) -> Seq<char> {
    "duplicate migration version "@ + crate::text::decimal(a.version as nat) + ": "@ + a.path@ + " and "@ + b.path@
}

/// `s` holds the listed migrations in order of version, then path.
pub open spec fn ordered_as(entries: Seq<(String, String)>, s: Seq<MigrationFile>) -> bool {
    &&& sorted_le(s)
    &&& migration_views(s).to_multiset() == listed_migrations(entries, entries.len() as int).to_multiset()
}

/// Orders the migrations of a directory, given its entries as (file name, path) in
/// the order read: only `.sql` files that are not `.down.sql` count, each must start
/// with a numeric version before its first `_` (the first entry that does not gives
/// the error), and no two may share a version (the first such neighbours in order
/// give the error).
pub fn order_migrations(entries: &Vec<(String, String)>) -> (r: Result<Vec<MigrationFile>, Error>)
    ensures
        match first_entry_problem(entries@, 0) {
            Some(m) => r matches Err(Error::ProviderFailure(x)) && x@ == m,
            None => exists|s: Seq<MigrationFile>| #[trigger] ordered_as(entries@, s) && match first_duplicate(s, 0) {
                Some(i) => r matches Err(Error::ProviderFailure(x)) && x@ == duplicate_message(s[i], s[i + 1]),
                None => r matches Ok(v) && v@ == s,
            },
        },
{
    proof {
        reveal_strlit(".sql");
        reveal_strlit(".down.sql");
    }
    let mut files: Vec<MigrationFile> = Vec::new();
    let mut k: usize = 0;
    while k < entries.len()
        invariant
            k <= entries@.len(),
            first_entry_problem(entries@, 0) == first_entry_problem(entries@, k as int),
            migration_views(files@) == listed_migrations(entries@, k as int),
        decreases entries.len() - k,
    {
        let name = entries[k].0.as_str();
        let path = entries[k].1.as_str();
        let ghost v0 = migration_views(files@);
        if crate::text::ends_with(name, ".sql") && !crate::text::ends_with(name, ".down.sql") {
            let nc = chars_of(name);
            match crate::text::find_char(&nc, '_', 0, nc.len()) {
                None => {
                    return Err(Error::ProviderFailure(crate::text::cat3("migration `", path, "` has no numeric version prefix")));
                },
                Some(j) => match crate::model_stats::parse_u64(&nc, 0, j) {
                    None => {
                        return Err(Error::ProviderFailure(crate::text::cat3("migration `", path, "` has an invalid numeric version prefix")));
                    },
                    Some(v) => {
                        let f = MigrationFile { version: v, path: own(path) };
                        files.push(f);
                        proof {
                            assert(migration_views(files@) =~= v0.push((v, path@)));
                        }
                    },
                },
            }
        }
        k = k + 1;
    }
    let ghost unsorted = files@;
    let sorted = sort_stable(files);
    proof {
        lemma_map_multiset(unsorted, sorted@, |m: MigrationFile| (m.version, m.path@));
        assert(ordered_as(entries@, sorted@));
    }
    let n = sorted.len();
    let mut i: usize = 0;
    while i < n
        invariant
            i <= n,
            n == sorted@.len(),
            first_entry_problem(entries@, 0) is None,
            ordered_as(entries@, sorted@),
            first_duplicate(sorted@, 0) == first_duplicate(sorted@, i as int),
        decreases n - i,
    {
        if i + 1 < n && sorted[i].version == sorted[i + 1].version {
            let mut m = cat("duplicate migration version ", crate::text::decimal_string(sorted[i].version).as_str());
            m.append(": ");
            m.append(sorted[i].path.as_str());
            m.append(" and ");
            m.append(sorted[i + 1].path.as_str());
            proof {
                assert(first_duplicate(sorted@, i as int) == Some(i as int));
                assert(m@ == duplicate_message(sorted@[i as int], sorted@[i + 1]));
            }
            return Err(Error::ProviderFailure(m));
        }
        i = i + 1;
    }
    Ok(sorted)
}

// ---------------------------------------------------------------------------
// What a child table inherits
// ---------------------------------------------------------------------------

impl Keyed for ColumnState {
    open spec fn key(&self) -> Seq<char> {
        self.name@
    }

    fn key_string(&self) -> (r: String) {
        self.name.clone()
    }
}

impl Keyed for NamedConstraint {
    open spec fn key(&self) -> Seq<char> {
        self.name@
    }

    fn key_string(&self) -> (r: String) {
        self.name.clone()
    }
}

/// The table's first primary key holds the column `name`.
pub open spec fn primary_holds(t: TableState, name: Seq<char>) -> bool {
    match first_primary_from(t.constraints@, 0) {
        Some(i) => match t.constraints@[i].state {
            ConstraintState::Primary { columns, .. } => set_has(columns@, name),
            _ => false,
        },
        None => false,
    }
}

/// A parent column as the child inherits it: same type, the child's provenance,
/// and `NOT NULL` (from the child) when the parent's column is explicitly
/// `NOT NULL` or in the parent's first primary key.
pub open spec fn inherited_column(parent: TableState, c: ColumnState, p: Provenance) -> ColumnState {
    ColumnState {
        name: c.name,
        data_type: c.data_type,
        provenance: p,
        explicit_not_null: if c.explicit_not_null is Some || primary_holds(parent, c.name@) { Some(p) } else { None },
    }
}

/// A check constraint of the parent as the child inherits it; other constraints
/// are not inherited.
pub open spec fn inherited_check(nc: NamedConstraint, p: Provenance) -> Option<NamedConstraint> {
    match nc.state {
        ConstraintState::Check { expression, .. } => Some(NamedConstraint { name: nc.name, state: ConstraintState::Check { expression, provenance: p } }),
        _ => None,
    }
}

proof fn lemma_same_key_same<T: Keyed>(s: Seq<T>, x: T, y: T)
    requires
        strictly_sorted(s),
        s.contains(x),
        s.contains(y),
        x.key() == y.key(),
    ensures
        x == y,
{
    let i = choose|i: int| 0 <= i < s.len() && s[i] == x;
    let j = choose|j: int| 0 <= j < s.len() && s[j] == y;
    if i < j {
        assert(seq_lt(s[i].key(), s[j].key()));
        crate::text::lemma_lt_irreflexive(x.key());
    } else if j < i {
        assert(seq_lt(s[j].key(), s[i].key()));
        crate::text::lemma_lt_irreflexive(x.key());
    }
}

/// Gives the child every column of the parent (see `inherited_column`) and every
/// check constraint of the parent, each with the child's provenance; an inherited
/// entry replaces the child's own entry of the same name.
pub fn inherit_safe_properties(child: &mut TableState, parent: &TableState, child_provenance: &Provenance)
    requires
        strictly_sorted(old(child).columns@),
        strictly_sorted(old(child).constraints@),
        strictly_sorted(parent.columns@),
        strictly_sorted(parent.constraints@),
    ensures
        final(child).name == old(child).name,
        final(child).provenance == old(child).provenance,
        strictly_sorted(final(child).columns@),
        strictly_sorted(final(child).constraints@),
        forall|c: ColumnState| #[trigger] parent.columns@.contains(c) ==> final(child).columns@.contains(inherited_column(*parent, c, *child_provenance)),
        forall|x: ColumnState| #[trigger] final(child).columns@.contains(x) ==> (exists|c: ColumnState| #[trigger] parent.columns@.contains(c)
            && x == inherited_column(*parent, c, *child_provenance)) || (old(child).columns@.contains(x) && !crate::keyed::has_key(parent.columns@, x.name@)),
        forall|c: NamedConstraint| #[trigger] parent.constraints@.contains(c) ==> match inherited_check(c, *child_provenance) {
            Some(k) => final(child).constraints@.contains(k),
            None => true,
        },
        forall|x: NamedConstraint| #[trigger] final(child).constraints@.contains(x) ==> (exists|c: NamedConstraint| #[trigger] parent.constraints@.contains(c)
            && inherited_check(c, *child_provenance) == Some(x)) || (old(child).constraints@.contains(x) && !exists|c: NamedConstraint|
            #[trigger] parent.constraints@.contains(c) && inherited_check(c, *child_provenance) is Some && c.name@ == x.name@),
{
    let ghost c0 = child.columns@;
    let ghost k0 = child.constraints@;
    let ghost name0 = child.name;
    let ghost prov0 = child.provenance;
    let primary = first_primary(&parent.constraints);
    let primary_columns: Option<&Vec<String>> = match primary {
        Some(i) => {
            proof {
                lemma_first_primary_in(parent.constraints@, 0);
            }
            match &parent.constraints[i].state {
                ConstraintState::Primary { columns, .. } => Some(columns),
                _ => None,
            }
        },
        None => None,
    };
    let n = parent.columns.len();
    let mut i: usize = 0;
    while i < n
        invariant
            i <= n,
            n == parent.columns@.len(),
            strictly_sorted(parent.columns@),
            strictly_sorted(child.columns@),
            child.constraints@ == k0,
            child.name == name0,
            child.provenance == prov0,
            match primary_columns {
                Some(cs) => forall|m: Seq<char>| set_has(cs@, m) <==> primary_holds(*parent, m),
                None => forall|m: Seq<char>| !primary_holds(*parent, m),
            },
            forall|q: int| 0 <= q < i ==> child.columns@.contains(inherited_column(*parent, #[trigger] parent.columns@[q], *child_provenance)),
            forall|x: ColumnState| #[trigger] child.columns@.contains(x) ==> (exists|q: int| 0 <= q < i
                && x == inherited_column(*parent, #[trigger] parent.columns@[q], *child_provenance))
                || (c0.contains(x) && forall|q: int| 0 <= q < i ==> (#[trigger] parent.columns@[q]).name@ != x.name@),
        decreases n - i,
    {
        let c = &parent.columns[i];
        let in_primary = match primary_columns {
            Some(cs) => crate::keyed::contains_str(cs, c.name.as_str()),
            None => false,
        };
        let not_null = if c.explicit_not_null.is_some() || in_primary {
            Some(child_provenance.clone())
        } else {
            None
        };
        let item = ColumnState { name: c.name.clone(), data_type: c.data_type.clone(), provenance: child_provenance.clone(), explicit_not_null: not_null };
        proof {
            assert(item == inherited_column(*parent, parent.columns@[i as int], *child_provenance));
        }
        let ghost before = child.columns@;
        upsert(&mut child.columns, item);
        proof {
            assert forall|q: int| 0 <= q < i + 1 implies child.columns@.contains(inherited_column(*parent, #[trigger] parent.columns@[q], *child_provenance)) by {
                if q < i {
                    let prev = inherited_column(*parent, parent.columns@[q], *child_provenance);
                    assert(before.contains(prev));
                    assert(seq_lt(parent.columns@[q].key(), parent.columns@[i as int].key()));
                    crate::text::lemma_lt_irreflexive(prev.name@);
                    assert(prev.key() != item.key());
                }
            };
            assert forall|x: ColumnState| #[trigger] child.columns@.contains(x) implies (exists|q: int| 0 <= q < i + 1
                && x == inherited_column(*parent, #[trigger] parent.columns@[q], *child_provenance))
                || (c0.contains(x) && forall|q: int| 0 <= q < i + 1 ==> (#[trigger] parent.columns@[q]).name@ != x.name@) by {
                if x == item {
                    assert(x == inherited_column(*parent, parent.columns@[i as int], *child_provenance));
                } else {
                    assert(before.contains(x));
                    if x.name@ == item.name@ {
                        lemma_same_key_same(child.columns@, x, item);
                    }
                }
            };
        }
        i = i + 1;
    }
    let ghost c1 = child.columns@;
    let m = parent.constraints.len();
    let mut j: usize = 0;
    while j < m
        invariant
            j <= m,
            m == parent.constraints@.len(),
            strictly_sorted(parent.constraints@),
            strictly_sorted(child.constraints@),
            child.columns@ == c1,
            child.name == name0,
            child.provenance == prov0,
            forall|q: int| 0 <= q < j ==> match inherited_check(#[trigger] parent.constraints@[q], *child_provenance) {
                Some(k) => child.constraints@.contains(k),
                None => true,
            },
            forall|x: NamedConstraint| #[trigger] child.constraints@.contains(x) ==> (exists|q: int| 0 <= q < j
                && inherited_check(#[trigger] parent.constraints@[q], *child_provenance) == Some(x))
                || (k0.contains(x) && forall|q: int| 0 <= q < j && (#[trigger] parent.constraints@[q]).name@ == x.name@
                    ==> inherited_check(parent.constraints@[q], *child_provenance) is None),
        decreases m - j,
    {
        let nc = &parent.constraints[j];
        match &nc.state {
            ConstraintState::Check { expression, .. } => {
                let item = NamedConstraint {
                    name: nc.name.clone(),
                    state: ConstraintState::Check { expression: expression.clone(), provenance: child_provenance.clone() },
                };
                let ghost before = child.constraints@;
                upsert(&mut child.constraints, item);
                proof {
                    assert(inherited_check(parent.constraints@[j as int], *child_provenance) == Some(item));
                    assert forall|q: int| 0 <= q < j + 1 implies match inherited_check(#[trigger] parent.constraints@[q], *child_provenance) {
                        Some(k) => child.constraints@.contains(k),
                        None => true,
                    } by {
                        if q < j {
                            if let Some(k) = inherited_check(parent.constraints@[q], *child_provenance) {
                                assert(before.contains(k));
                                assert(seq_lt(parent.constraints@[q].key(), parent.constraints@[j as int].key()));
                                crate::text::lemma_lt_irreflexive(k.name@);
                                assert(k.key() != item.key());
                            }
                        }
                    };
                    assert forall|x: NamedConstraint| #[trigger] child.constraints@.contains(x) implies (exists|q: int| 0 <= q < j + 1
                        && inherited_check(#[trigger] parent.constraints@[q], *child_provenance) == Some(x))
                        || (k0.contains(x) && forall|q: int| 0 <= q < j + 1 && (#[trigger] parent.constraints@[q]).name@ == x.name@
                            ==> inherited_check(parent.constraints@[q], *child_provenance) is None) by {
                        if x == item {
                            assert(inherited_check(parent.constraints@[j as int], *child_provenance) == Some(x));
                        } else {
                            assert(before.contains(x));
                            if x.name@ == item.name@ {
                                lemma_same_key_same(child.constraints@, x, item);
                            }
                        }
                    };
                }
            },
            _ => {
                proof {
                    assert(inherited_check(parent.constraints@[j as int], *child_provenance) is None);
                }
            },
        }
        j = j + 1;
    }
    proof {
        assert forall|c: ColumnState| #[trigger] parent.columns@.contains(c) implies child.columns@.contains(inherited_column(*parent, c, *child_provenance)) by {
            let q = choose|q: int| 0 <= q < n && parent.columns@[q] == c;
            assert(child.columns@.contains(inherited_column(*parent, parent.columns@[q], *child_provenance)));
        };
        assert forall|x: ColumnState| #[trigger] child.columns@.contains(x) implies (exists|c: ColumnState| #[trigger] parent.columns@.contains(c)
            && x == inherited_column(*parent, c, *child_provenance)) || (c0.contains(x) && !crate::keyed::has_key(parent.columns@, x.name@)) by {
            if exists|q: int| 0 <= q < n && x == inherited_column(*parent, #[trigger] parent.columns@[q], *child_provenance) {
                let q = choose|q: int| 0 <= q < n && x == inherited_column(*parent, #[trigger] parent.columns@[q], *child_provenance);
                assert(parent.columns@.contains(parent.columns@[q]));
            } else {
                if crate::keyed::has_key(parent.columns@, x.name@) {
                    let q = choose|q: int| 0 <= q < parent.columns@.len() && #[trigger] parent.columns@[q].key() == x.name@;
                    assert(parent.columns@[q].name@ == x.name@);
                }
            }
        };
        assert forall|c: NamedConstraint| #[trigger] parent.constraints@.contains(c) implies match inherited_check(c, *child_provenance) {
            Some(k) => child.constraints@.contains(k),
            None => true,
        } by {
            let q = choose|q: int| 0 <= q < m && parent.constraints@[q] == c;
            assert(match inherited_check(parent.constraints@[q], *child_provenance) {
                Some(k) => child.constraints@.contains(k),
                None => true,
            });
        };
        assert forall|x: NamedConstraint| #[trigger] child.constraints@.contains(x) implies (exists|c: NamedConstraint| #[trigger] parent.constraints@.contains(c)
            && inherited_check(c, *child_provenance) == Some(x)) || (k0.contains(x) && !exists|c: NamedConstraint|
            #[trigger] parent.constraints@.contains(c) && inherited_check(c, *child_provenance) is Some && c.name@ == x.name@) by {
            if exists|q: int| 0 <= q < m && inherited_check(#[trigger] parent.constraints@[q], *child_provenance) == Some(x) {
                let q = choose|q: int| 0 <= q < m && inherited_check(#[trigger] parent.constraints@[q], *child_provenance) == Some(x);
                assert(parent.constraints@.contains(parent.constraints@[q]));
            } else {
                assert forall|c: NamedConstraint| #[trigger] parent.constraints@.contains(c) && inherited_check(c, *child_provenance) is Some
                    implies c.name@ != x.name@ by {
                    let q = choose|q: int| 0 <= q < m && parent.constraints@[q] == c;
                    assert((#[trigger] parent.constraints@[q]).name@ == x.name@ ==> inherited_check(parent.constraints@[q], *child_provenance) is None);
                };
            }
        };
    }
}

// ---------------------------------------------------------------------------
// `DO` blocks
// ---------------------------------------------------------------------------

/// ASCII letters lowered; other characters kept.
pub open spec fn lower(c: char) -> char {
    if 'A' <= c && c <= 'Z' {
        ((c as int) + 32) as char
    } else {
        c
    }
}

pub open spec fn lower_text(s: Seq<char>) -> Seq<char> {
    s.map_values(|c: char| lower(c))
}

fn lower_exec(c: char) -> (r: char)
    ensures
        r == lower(c),
{
    if 'A' <= c && c <= 'Z' {
        let b: u8 = (c as u32 + 32) as u8;
        b as char
    } else {
        c
    }
}

/// A character of a PL/pgSQL word: ASCII letter, digit or `_`.
pub open spec fn is_word(c: char) -> bool {
    crate::text::is_ascii_alnum(c) || c == '_'
}

/// The end of the word that starts at `i`.
pub open spec fn word_end(s: Seq<char>, i: int) -> int
    decreases s.len() - i,
{
    if 0 <= i < s.len() && is_word(s[i]) {
        word_end(s, i + 1)
    } else {
        i
    }
}

/// A word that starts at `i` ends after it, within the text.
pub proof fn lemma_word_end(s: Seq<char>, i: int)
    requires
        0 <= i <= s.len(),
    ensures
        i <= word_end(s, i) <= s.len(),
        i < s.len() && is_word(s[i]) ==> i < word_end(s, i),
    decreases s.len() - i,
{
    if i < s.len() && is_word(s[i]) {
        lemma_word_end(s, i + 1);
    }
}

/// The statements a `DO` body may not hide: dynamic SQL, calls and DDL.
pub open spec fn is_mutating_token(t: Seq<char>) -> bool {
    ||| t == "execute"@
    ||| t == "perform"@
    ||| t == "call"@
    ||| t == "create"@
    ||| t == "alter"@
    ||| t == "drop"@
    ||| t == "truncate"@
    ||| t == "grant"@
    ||| t == "revoke"@
}

/// The first word from `i` on that, lowered, is a mutating token.
pub open spec fn first_mutating_token(s: Seq<char>, i: int) -> Option<Seq<char>>
    decreases s.len() - i,
{
    if i < 0 || i >= s.len() {
        None
    } else if !is_word(s[i]) {
        first_mutating_token(s, i + 1)
    } else {
        let e = word_end(s, i);
        proof {
            lemma_word_end(s, i);
        }
        let t = lower_text(s.subrange(i, e));
        if is_mutating_token(t) {
            Some(t)
        } else {
            first_mutating_token(s, e)
        }
    }
}

/// The body from `i` on with string literals blanked: every character of a
/// `'...'` literal, its quotes and doubled quotes included, becomes a space.
pub open spec fn masked_from(s: Seq<char>, i: int, quoted: bool) -> Seq<char>
    decreases s.len() - i,
{
    if i < 0 || i >= s.len() {
        Seq::empty()
    } else if s[i] == '\'' {
        if quoted && i + 1 < s.len() && s[i + 1] == '\'' {
            seq![' ', ' '] + masked_from(s, i + 2, quoted)
        } else {
            seq![' '] + masked_from(s, i + 1, !quoted)
        }
    } else {
        seq![if quoted { ' ' } else { s[i] }] + masked_from(s, i + 1, quoted)
    }
}

pub open spec fn is_ident(c: char) -> bool {
    is_word(c) || c == '.'
}

/// Where the run of identifier characters that ends at `e` starts.
pub open spec fn ident_start(m: Seq<char>, e: int) -> int
    decreases e,
{
    if 0 < e <= m.len() && is_ident(m[e - 1]) {
        ident_start(m, e - 1)
    } else {
        e
    }
}

/// The name called at the `(` at `p`: the identifier (lowered) that ends where the
/// text before it ends, trailing whitespace left out.
pub open spec fn call_name(m: Seq<char>, p: int) -> Seq<char> {
    let e = crate::text::trim_end_index(m, 0, p);
    lower_text(m.subrange(ident_start(m, e), e))
}

/// The first call from `p` on of a name other than `exists` and `count`.
pub open spec fn first_call(m: Seq<char>, p: int) -> Option<Seq<char>>
    decreases m.len() - p,
{
    if p < 0 || p >= m.len() {
        None
    } else if m[p] == '(' {
        let n = call_name(m, p);
        if n.len() > 0 && n != "exists"@ && n != "count"@ {
            Some(n)
        } else {
            first_call(m, p + 1)
        }
    } else {
        first_call(m, p + 1)
    }
}

/// The first function or procedure a `DO` body calls outside string literals,
/// other than `exists` and `count`.
pub open spec fn unknown_call(body: Seq<char>) -> Option<Seq<char>> {
    first_call(masked_from(body, 0, false), 0)
}

fn lowered(s: &Vec<char>, a: usize, b: usize) -> (r: String)
    requires
        a <= b <= s@.len(),
    ensures
        r@ == lower_text(s@.subrange(a as int, b as int)),
{
    let mut out: Vec<char> = Vec::new();
    let mut k = a;
    while k < b
        invariant
            a <= k <= b <= s@.len(),
            out@ == lower_text(s@.subrange(a as int, k as int)),
        decreases b - k,
    {
        out.push(lower_exec(s[k]));
        proof {
            assert(lower_text(s@.subrange(a as int, k + 1)) =~= lower_text(s@.subrange(a as int, k as int)).push(lower(s@[k as int])));
        }
        k = k + 1;
    }
    crate::text::string_from_chars(&out)
}

fn is_word_exec(c: char) -> (r: bool)
    ensures
        r == is_word(c),
{
    crate::text::is_ascii_alnum_exec(c) || c == '_'
}

fn mutating_token_exec(t: &str) -> (r: bool)
    ensures
        r == is_mutating_token(t@),
{
    proof {
        reveal_strlit("execute");
        reveal_strlit("perform");
        reveal_strlit("call");
        reveal_strlit("create");
        reveal_strlit("alter");
        reveal_strlit("drop");
        reveal_strlit("truncate");
        reveal_strlit("grant");
        reveal_strlit("revoke");
    }
    str_eq(t, "execute") || str_eq(t, "perform") || str_eq(t, "call") || str_eq(t, "create") || str_eq(t, "alter")
        || str_eq(t, "drop") || str_eq(t, "truncate") || str_eq(t, "grant") || str_eq(t, "revoke")
}

fn first_mutating_token_exec(s: &Vec<char>) -> (r: Option<String>)
    ensures
        match first_mutating_token(s@, 0) {
            Some(t) => r matches Some(x) && x@ == t,
            None => r is None,
        },
{
    let mut i: usize = 0;
    while i < s.len()
        invariant
            i <= s@.len(),
            first_mutating_token(s@, 0) == first_mutating_token(s@, i as int),
        decreases s.len() - i,
    {
        if !is_word_exec(s[i]) {
            i = i + 1;
        } else {
            let mut e = i;
            while e < s.len() && is_word_exec(s[e])
                invariant
                    i <= e <= s@.len(),
                    word_end(s@, i as int) == word_end(s@, e as int),
                decreases s.len() - e,
            {
                e = e + 1;
            }
            proof {
                lemma_word_end(s@, i as int);
            }
            let t = lowered(s, i, e);
            if mutating_token_exec(t.as_str()) {
                return Some(t);
            }
            i = e;
        }
    }
    None
}

fn masked_exec(s: &Vec<char>) -> (r: Vec<char>)
    ensures
        r@ == masked_from(s@, 0, false),
{
    let mut out: Vec<char> = Vec::new();
    let mut quoted = false;
    let mut i: usize = 0;
    while i < s.len()
        invariant
            i <= s@.len(),
            out@ + masked_from(s@, i as int, quoted) == masked_from(s@, 0, false),
        decreases s.len() - i,
    {
        let ghost o0 = out@;
        let ghost q0 = quoted;
        if s[i] == '\'' {
            if quoted && i + 1 < s.len() && s[i + 1] == '\'' {
                out.push(' ');
                out.push(' ');
                proof {
                    assert(o0 + masked_from(s@, i as int, q0) =~= out@ + masked_from(s@, i + 2, q0));
                }
                i = i + 2;
            } else {
                out.push(' ');
                quoted = !quoted;
                proof {
                    assert(o0 + masked_from(s@, i as int, q0) =~= out@ + masked_from(s@, i + 1, quoted));
                }
                i = i + 1;
            }
        } else {
            out.push(if quoted { ' ' } else { s[i] });
            proof {
                assert(o0 + masked_from(s@, i as int, q0) =~= out@ + masked_from(s@, i + 1, quoted));
            }
            i = i + 1;
        }
    }
    proof {
        assert(out@ =~= out@ + masked_from(s@, i as int, quoted));
    }
    out
}

fn call_name_exec(m: &Vec<char>, p: usize) -> (r: String)
    requires
        p <= m@.len(),
    ensures
        r@ == call_name(m@, p as int),
{
    let mut e = p;
    while e > 0 && crate::text::is_trim_ws_exec(m[e - 1])
        invariant
            e <= p <= m@.len(),
            crate::text::trim_end_index(m@, 0, p as int) == crate::text::trim_end_index(m@, 0, e as int),
        decreases e,
    {
        e = e - 1;
    }
    let mut b = e;
    while b > 0 && (is_word_exec(m[b - 1]) || m[b - 1] == '.')
        invariant
            b <= e <= m@.len(),
            ident_start(m@, e as int) == ident_start(m@, b as int),
        decreases b,
    {
        b = b - 1;
    }
    lowered(m, b, e)
}

fn first_call_exec(m: &Vec<char>) -> (r: Option<String>)
    ensures
        match first_call(m@, 0) {
            Some(t) => r matches Some(x) && x@ == t,
            None => r is None,
        },
{
    proof {
        reveal_strlit("exists");
        reveal_strlit("count");
    }
    let mut p: usize = 0;
    while p < m.len()
        invariant
            p <= m@.len(),
            first_call(m@, 0) == first_call(m@, p as int),
        decreases m.len() - p,
    {
        if m[p] == '(' {
            let n = call_name_exec(m, p);
            let nc = chars_of(n.as_str());
            if nc.len() > 0 && !str_eq(n.as_str(), "exists") && !str_eq(n.as_str(), "count") {
                return Some(n);
            }
        }
        p = p + 1;
    }
    None
}

/// The function or procedure a `DO` body calls that is not allowlisted, if any
/// (see `unknown_call`).
pub fn unknown_plpgsql_call(body: &str) -> (r: Option<String>)
    ensures
        match unknown_call(body@) {
            Some(t) => r matches Some(x) && x@ == t,
            None => r is None,
        },
{
    let s = chars_of(body);
    let m = masked_exec(&s);
    first_call_exec(&m)
}

/// What a `DO` block may do to the schema, from its body: a mutating token (see
/// `is_mutating_token`) or a call of a function that is not allowlisted makes its
/// effect unknown; otherwise it is irrelevant to the schema.
pub fn classify_do(body: &str, source: &str, line: usize) -> (r: UnsupportedSql)
    ensures
        r.source@ == source@,
        r.line == line,
        r.statement@ == "DO"@,
        match first_mutating_token(body@, 0) {
            Some(t) => r.reason@ == "DO body contains potentially dynamic/schema-mutating token `"@ + t + "`"@
                && r.effect is UnknownSchemaEffect,
            None => match unknown_call(body@) {
                Some(c) => r.reason@ == "DO body calls non-allowlisted function/procedure `"@ + c + "`"@
                    && r.effect is UnknownSchemaEffect,
                None => r.reason@ == "DO body contains no EXECUTE or schema-mutating DDL token"@
                    && r.effect is KnownIrrelevantToSchema,
            },
        },
{
    let s = chars_of(body);
    let token = first_mutating_token_exec(&s);
    let call = unknown_plpgsql_call(body);
    let (reason, effect) = match token {
        Some(t) => (crate::text::cat3("DO body contains potentially dynamic/schema-mutating token `", t.as_str(), "`"), SchemaEffect::UnknownSchemaEffect),
        None => match call {
            Some(c) => (crate::text::cat3("DO body calls non-allowlisted function/procedure `", c.as_str(), "`"), SchemaEffect::UnknownSchemaEffect),
            None => (own("DO body contains no EXECUTE or schema-mutating DDL token"), SchemaEffect::KnownIrrelevantToSchema),
        },
    };
    UnsupportedSql { source: own(source), line, statement: own("DO"), reason, effect }
}

// ---------------------------------------------------------------------------
// Names and positions
// ---------------------------------------------------------------------------

/// The kind of a table constraint as the parser names it; `Other` holds the
/// parser's name of any other kind.
#[derive(Debug)]
pub enum ConstraintKind {
    Primary,
    Unique,
    Foreign,
    Check,
    Other(String),
}

/// The text after the last `.` (all of it when there is none).
pub open spec fn local_name(t: Seq<char>) -> Seq<char>
    decreases t.len(),
{
    if t.len() == 0 {
        t
    } else if t.last() == '.' {
        Seq::empty()
    } else {
        local_name(t.drop_last()).push(t.last())
    }
}

/// The items joined with `_`.
pub open spec fn join_underscores(s: Seq<Seq<char>>) -> Seq<char>
    decreases s.len(),
{
    if s.len() == 0 {
        Seq::empty()
    } else if s.len() == 1 {
        s[0]
    } else {
        join_underscores(s.drop_last()) + "_"@ + s.last()
    }
}

/// The name PostgreSQL gives an unnamed constraint: `T_pkey`, `T_C_key`,
/// `T_C_fkey` or `T_C_check` for the local table name `T` and the columns `C`
/// joined with `_`; other kinds get `__KIND:` and the columns joined with `,`.
pub open spec fn generated_name(table: Seq<char>, kind: ConstraintKind, columns: Seq<Seq<char>>) -> Seq<char> {
    let t = local_name(table);
    match kind {
        ConstraintKind::Primary => t + "_pkey"@,
        ConstraintKind::Unique => t + "_"@ + join_underscores(columns) + "_key"@,
        ConstraintKind::Foreign => t + "_"@ + join_underscores(columns) + "_fkey"@,
        ConstraintKind::Check => t + "_"@ + join_underscores(columns) + "_check"@,
        ConstraintKind::Other(name) => "__"@ + name@ + ":"@ + join_commas(columns),
    }
}

fn local_name_exec(table: &str) -> (r: String)
    ensures
        r@ == local_name(table@),
{
    let t = chars_of(table);
    let mut start: usize = 0;
    let mut i: usize = 0;
    while i < t.len()
        invariant
            i <= t@.len(),
            start <= i,
            t@ == table@,
            local_name(t@.take(i as int)) == t@.subrange(start as int, i as int),
        decreases t.len() - i,
    {
        proof {
            assert(t@.take(i + 1).drop_last() =~= t@.take(i as int));
        }
        if t[i] == '.' {
            start = i + 1;
            proof {
                assert(local_name(t@.take(i + 1)) =~= t@.subrange(start as int, i + 1));
            }
        } else {
            proof {
                assert(t@.subrange(start as int, i + 1) =~= t@.subrange(start as int, i as int).push(t@[i as int]));
            }
        }
        i = i + 1;
    }
    proof {
        assert(t@.take(t@.len() as int) =~= t@);
    }
    crate::text::slice_string(&t, start, t.len())
}

fn join_underscores_exec(v: &Vec<String>) -> (r: String)
    ensures
        r@ == join_underscores(strs(v@)),
{
    let mut r = String::new();
    let mut i: usize = 0;
    while i < v.len()
        invariant
            i <= v@.len(),
            r@ == join_underscores(strs(v@.take(i as int))),
        decreases v.len() - i,
    {
        proof {
            assert(strs(v@.take(i + 1)).drop_last() =~= strs(v@.take(i as int)));
            assert(strs(v@.take(i + 1)).last() == v@[i as int]@);
        }
        if i == 0 {
            r = v[0].clone();
        } else {
            r.append("_");
            r.append(v[i].as_str());
        }
        i = i + 1;
    }
    proof {
        assert(v@.take(v@.len() as int) =~= v@);
    }
    r
}

/// The name of an unnamed constraint (see `generated_name`).
pub fn generated_constraint_name(table: &str, kind: &ConstraintKind, columns: &Vec<String>) -> (r: String)
    ensures
        r@ == generated_name(table@, *kind, strs(columns@)),
{
    let t = local_name_exec(table);
    match kind {
        ConstraintKind::Primary => cat(t.as_str(), "_pkey"),
        ConstraintKind::Unique => {
            let mut r = crate::text::cat3(t.as_str(), "_", join_underscores_exec(columns).as_str());
            r.append("_key");
            r
        },
        ConstraintKind::Foreign => {
            let mut r = crate::text::cat3(t.as_str(), "_", join_underscores_exec(columns).as_str());
            r.append("_fkey");
            r
        },
        ConstraintKind::Check => {
            let mut r = crate::text::cat3(t.as_str(), "_", join_underscores_exec(columns).as_str());
            r.append("_check");
            r
        },
        ConstraintKind::Other(name) => {
            let mut r = crate::text::cat3("__", name.as_str(), ":");
            r.append(join_commas_exec(columns).as_str());
            r
        },
    }
}

/// The name of a schema effect as reports write it.
pub fn effect_name(effect: &SchemaEffect) -> (r: &'static str)
    ensures
        r@ == match effect {
            SchemaEffect::KnownIrrelevantToSchema => "known_irrelevant_to_schema"@,
            SchemaEffect::KnownSchemaEffect { .. } => "known_schema_effect"@,
            SchemaEffect::UnknownSchemaEffect => "unknown_schema_effect"@,
        },
{
    proof {
        reveal_strlit("known_irrelevant_to_schema");
        reveal_strlit("known_schema_effect");
        reveal_strlit("unknown_schema_effect");
    }
    match effect {
        SchemaEffect::KnownIrrelevantToSchema => "known_irrelevant_to_schema",
        SchemaEffect::KnownSchemaEffect { .. } => "known_schema_effect",
        SchemaEffect::UnknownSchemaEffect => "unknown_schema_effect",
    }
}

/// The number of newline bytes among the first `k` bytes.
pub open spec fn newlines(b: Seq<u8>, k: int) -> nat
    decreases k,
{
    if k <= 0 {
        0
    } else {
        newlines(b, k - 1) + if b[k - 1] == 10u8 { 1nat } else { 0nat }
    }
}

/// The line (from 1) of byte `offset` of the SQL text; an offset past the end
/// counts as the end.
pub fn line_at(sql: &[u8], offset: usize) -> (r: usize)
    requires
        sql@.len() < usize::MAX,
    ensures
        r == newlines(sql@, if offset < sql@.len() { offset as int } else { sql@.len() as int }) + 1,
{
    let end = if offset < sql.len() { offset } else { sql.len() };
    let mut count: usize = 0;
    let mut k: usize = 0;
    while k < end
        invariant
            k <= end <= sql@.len(),
            sql@.len() < usize::MAX,
            count == newlines(sql@, k as int),
            count <= k,
        decreases end - k,
    {
        if sql[k] == 10u8 {
            count = count + 1;
        }
        k = k + 1;
    }
    count + 1
}

} // verus!
