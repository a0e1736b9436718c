use adrproof::adr::Error;
use adrproof::project::{Provenance, ProvenanceKind, SourceSpan};
use adrproof::sql_migrations::{
    ColumnState, ConstraintState, EffectiveDatabaseSchema, Inheritance, NamedConstraint, NamedSource, Partition,
    PostgresMigrationFactProvider, SchemaEffect, ConstraintKind, effect_name, generated_constraint_name, line_at, TableState, classify_do, inherit_safe_properties, order_migrations, unknown_plpgsql_call,
};

fn at(line: usize) -> Provenance {
    Provenance {
        kind: ProvenanceKind::DeterministicallyExtracted,
        source: "migrations/0001_init.sql".into(),
        span: Some(SourceSpan { filename: "migrations/0001_init.sql".into(), line, column: 1 }),
        extractor: Some("pg_query 6.2.0 / PostgreSQL parser".into()),
    }
}

fn column(name: &str, data_type: &str, line: usize, not_null: Option<usize>) -> ColumnState {
    ColumnState { name: name.into(), data_type: data_type.into(), provenance: at(line), explicit_not_null: not_null.map(at) }
}

fn orders_schema() -> EffectiveDatabaseSchema {
    let orders = TableState {
        name: "public.orders".into(),
        provenance: at(3),
        columns: vec![column("customer_id", "int4", 5, Some(5)), column("id", "int4", 4, None), column("note", "text", 6, None)],
        constraints: vec![
            NamedConstraint {
                name: "orders_customer_fkey".into(),
                state: ConstraintState::Foreign {
                    columns: vec!["customer_id".into()],
                    target_table: "public.customers".into(),
                    target_columns: vec!["id".into()],
                    provenance: at(7),
                },
            },
            NamedConstraint {
                name: "orders_note_check".into(),
                state: ConstraintState::Check { expression: "{\"A_Expr\":{}}".into(), provenance: at(8) },
            },
            NamedConstraint {
                name: "orders_pkey".into(),
                state: ConstraintState::Primary { columns: vec!["id".into()], provenance: at(4) },
            },
        ],
    };
    EffectiveDatabaseSchema {
        schemas: vec![NamedSource { name: "public".into(), provenance: at(1) }],
        tables: vec![orders],
        materialized_views: vec![NamedSource { name: "public.totals".into(), provenance: at(10) }],
        partitions: vec![Partition {
            child: "public.orders_2024".into(),
            parent: "public.orders".into(),
            provenance: at(12),
            bound: "{}".into(),
        }],
        inheritance: vec![Inheritance {
            child: "public.archive".into(),
            parents: vec![NamedSource { name: "public.orders".into(), provenance: at(14) }],
        }],
    }
}

#[test]
fn discover_needs_a_migrations_directory() {
    assert!(PostgresMigrationFactProvider::discover("/proj", false).is_none());
    let p = PostgresMigrationFactProvider::discover("/proj", true).unwrap();
    assert_eq!(p.project_root, "/proj");
    assert_eq!(p.migration_root, "/proj/migrations");
    assert_eq!(p.default_schema, "public");
}

#[test]
fn schema_facts_are_sorted_by_identifier() {
    let provider = PostgresMigrationFactProvider::discover("/proj", true).unwrap();
    let migrations = vec![(1u64, "/proj/migrations/0001_init.sql".to_string())];
    let facts = provider.emit_facts(&orders_schema(), &migrations);
    let ids: Vec<&str> = facts.iter().map(|f| f.id.0.as_str()).collect();
    assert_eq!(
        ids,
        vec![
            "sql:check_constraint:public.orders:orders_note_check",
            "sql:column-type:public.orders:customer_id",
            "sql:column-type:public.orders:id",
            "sql:column-type:public.orders:note",
            "sql:column:public.orders:customer_id",
            "sql:column:public.orders:id",
            "sql:column:public.orders:note",
            "sql:foreign_key:public.orders:orders_customer_fkey",
            "sql:inherits:public.archive:public.orders",
            "sql:materialized-view:public.totals",
            "sql:migration:migrations/0001_init.sql",
            "sql:not-null:public.orders:customer_id",
            "sql:not-null:public.orders:id",
            "sql:partition-of:public.orders_2024:public.orders",
            "sql:primary_key:public.orders:orders_pkey",
            "sql:schema:public",
            "sql:table:public.orders",
        ]
    );
    assert!(facts.iter().all(|f| f.value));
}

#[test]
fn not_null_comes_from_an_explicit_constraint_or_the_primary_key() {
    let provider = PostgresMigrationFactProvider::discover("/proj", true).unwrap();
    let facts = provider.emit_facts(&orders_schema(), &Vec::new());
    let find = |id: &str| facts.iter().find(|f| f.id.0 == id).unwrap();
    let explicit = find("sql:not-null:public.orders:customer_id");
    assert_eq!(explicit.relation, "column_not_null");
    assert_eq!(explicit.arguments, vec!["public.orders".to_string(), "customer_id".to_string()]);
    assert_eq!(explicit.attributes, vec![("basis".to_string(), "explicit".to_string())]);
    let derived = find("sql:not-null:public.orders:id");
    assert_eq!(derived.attributes, vec![("basis".to_string(), "primary_key_semantics".to_string())]);
    assert_eq!(derived.provenance.span.as_ref().unwrap().line, 4);
    assert!(facts.iter().all(|f| f.id.0 != "sql:not-null:public.orders:note"));
}

#[test]
fn constraint_and_migration_facts_carry_their_arguments() {
    let provider = PostgresMigrationFactProvider::discover("/proj", true).unwrap();
    let migrations = vec![(1u64, "/proj/migrations/0001_init.sql".to_string())];
    let facts = provider.emit_facts(&orders_schema(), &migrations);
    let find = |id: &str| facts.iter().find(|f| f.id.0 == id).unwrap();
    let fk = find("sql:foreign_key:public.orders:orders_customer_fkey");
    assert_eq!(fk.relation, "foreign_key");
    assert_eq!(fk.arguments, vec!["public.orders", "customer_id", "public.customers", "id"]);
    assert_eq!(fk.attributes, vec![("constraint_name".to_string(), "orders_customer_fkey".to_string())]);
    let check = find("sql:check_constraint:public.orders:orders_note_check");
    assert_eq!(check.arguments, vec!["public.orders", "orders_note_check"]);
    assert_eq!(check.attributes[0].0, "expression_ast_json");
    let ty = find("sql:column-type:public.orders:note");
    assert_eq!(ty.arguments, vec!["public.orders", "note", "text"]);
    let part = find("sql:partition-of:public.orders_2024:public.orders");
    assert_eq!(part.attributes, vec![("partition_bound_ast_json".to_string(), "{}".to_string())]);
    let migration = find("sql:migration:migrations/0001_init.sql");
    assert_eq!(migration.relation, "migration");
    assert_eq!(migration.arguments, vec!["migrations/0001_init.sql"]);
    assert_eq!(migration.provenance.source, "migrations/0001_init.sql");
    assert_eq!(migration.provenance.extractor.as_deref(), Some("pg_query 6.2.0 / PostgreSQL parser"));
}

#[test]
fn multi_column_keys_are_joined_with_commas() {
    let mut schema = orders_schema();
    schema.tables[0].constraints[2].state =
        ConstraintState::Primary { columns: vec!["id".into(), "note".into()], provenance: at(4) };
    let provider = PostgresMigrationFactProvider::discover("/proj", true).unwrap();
    let facts = provider.emit_facts(&schema, &Vec::new());
    let pk = facts.iter().find(|f| f.id.0 == "sql:primary_key:public.orders:orders_pkey").unwrap();
    assert_eq!(pk.arguments, vec!["public.orders", "id,note"]);
    assert!(facts.iter().any(|f| f.id.0 == "sql:not-null:public.orders:note"));
}

fn entry(name: &str) -> (String, String) {
    (name.to_string(), format!("/proj/migrations/{name}"))
}

#[test]
fn migrations_are_ordered_numerically_and_duplicate_versions_fail() {
    let entries = vec![entry("0010_require_name.sql"), entry("0002_create_company.sql"), entry("0003_undo.down.sql"), entry("README.md")];
    let ordered = order_migrations(&entries).unwrap();
    let seen: Vec<(u64, &str)> = ordered.iter().map(|m| (m.version, m.path.as_str())).collect();
    assert_eq!(
        seen,
        vec![(2, "/proj/migrations/0002_create_company.sql"), (10, "/proj/migrations/0010_require_name.sql")]
    );
    let mut duplicated = entries.clone();
    duplicated.push(entry("0002_duplicate.sql"));
    match order_migrations(&duplicated) {
        Err(Error::ProviderFailure(message)) => assert_eq!(
            message,
            "duplicate migration version 2: /proj/migrations/0002_create_company.sql and /proj/migrations/0002_duplicate.sql"
        ),
        other => panic!("unexpected {other:?}"),
    }
}

#[test]
fn migration_names_need_a_numeric_version_prefix() {
    match order_migrations(&vec![entry("init.sql")]) {
        Err(Error::ProviderFailure(message)) => {
            assert_eq!(message, "migration `/proj/migrations/init.sql` has no numeric version prefix")
        },
        other => panic!("unexpected {other:?}"),
    }
    match order_migrations(&vec![entry("v1_init.sql")]) {
        Err(Error::ProviderFailure(message)) => {
            assert_eq!(message, "migration `/proj/migrations/v1_init.sql` has an invalid numeric version prefix")
        },
        other => panic!("unexpected {other:?}"),
    }
    assert!(order_migrations(&Vec::new()).unwrap().is_empty());
}

#[test]
fn a_child_inherits_columns_not_null_and_checks_but_no_keys() {
    let parent = orders_schema().tables.remove(0);
    let mut child = TableState {
        name: "public.orders_2024".into(),
        provenance: at(12),
        columns: vec![column("extra", "text", 12, None)],
        constraints: Vec::new(),
    };
    inherit_safe_properties(&mut child, &parent, &at(12));
    let names: Vec<&str> = child.columns.iter().map(|c| c.name.as_str()).collect();
    assert_eq!(names, vec!["customer_id", "extra", "id", "note"]);
    let not_null: Vec<bool> = child.columns.iter().map(|c| c.explicit_not_null.is_some()).collect();
    assert_eq!(not_null, vec![true, false, true, false]);
    assert!(child.columns.iter().all(|c| c.provenance.span.as_ref().unwrap().line == 12));
    assert_eq!(child.columns[3].data_type, "text");
    assert_eq!(child.constraints.len(), 1);
    assert_eq!(child.constraints[0].name, "orders_note_check");
    match &child.constraints[0].state {
        ConstraintState::Check { provenance, .. } => assert_eq!(provenance.span.as_ref().unwrap().line, 12),
        other => panic!("unexpected {other:?}"),
    }
}

#[test]
fn do_blocks_are_classified_by_their_tokens_and_calls() {
    let safe = classify_do(" BEGIN IF EXISTS (SELECT 1 FROM item) THEN RAISE EXCEPTION 'not empty'; END IF; END ", "migrations/0001_safe.sql", 1);
    assert!(matches!(safe.effect, SchemaEffect::KnownIrrelevantToSchema));
    assert_eq!(safe.reason, "DO body contains no EXECUTE or schema-mutating DDL token");
    assert_eq!(safe.statement, "DO");
    assert_eq!(safe.source, "migrations/0001_safe.sql");
    let dynamic = classify_do(" BEGIN EXECUTE 'ALTER TABLE item ADD COLUMN hidden TEXT'; END ", "m.sql", 3);
    assert!(matches!(dynamic.effect, SchemaEffect::UnknownSchemaEffect));
    assert_eq!(dynamic.reason, "DO body contains potentially dynamic/schema-mutating token `execute`");
    assert_eq!(dynamic.line, 3);
    let call = classify_do(" BEGIN PERFORM_LATER := Audit.Log (1); END ", "m.sql", 1);
    assert!(matches!(call.effect, SchemaEffect::UnknownSchemaEffect));
    assert_eq!(call.reason, "DO body calls non-allowlisted function/procedure `audit.log`");
}

#[test]
fn calls_inside_string_literals_and_allowlisted_calls_are_ignored() {
    assert_eq!(unknown_plpgsql_call("RAISE NOTICE 'call it() later'; IF count(x) > 0 THEN END IF;"), None);
    assert_eq!(unknown_plpgsql_call("RAISE NOTICE 'it''s f() done'; x := g(1);"), Some("g".to_string()));
    assert_eq!(unknown_plpgsql_call("y := (1 + 2);"), None);
}

#[test]
fn unnamed_constraints_get_postgres_names() {
    let cols = vec!["tenant".to_string(), "member".to_string()];
    assert_eq!(generated_constraint_name("public.membership", &ConstraintKind::Primary, &cols), "membership_pkey");
    assert_eq!(generated_constraint_name("public.membership", &ConstraintKind::Unique, &cols), "membership_tenant_member_key");
    assert_eq!(generated_constraint_name("membership", &ConstraintKind::Foreign, &cols[..1].to_vec()), "membership_tenant_fkey");
    assert_eq!(generated_constraint_name("a.b.c", &ConstraintKind::Check, &cols[1..].to_vec()), "c_member_check");
    assert_eq!(
        generated_constraint_name("public.t", &ConstraintKind::Other("CONSTR_EXCLUSION".into()), &cols),
        "__CONSTR_EXCLUSION:tenant,member"
    );
}

#[test]
fn effect_names_and_lines() {
    assert_eq!(effect_name(&SchemaEffect::UnknownSchemaEffect), "unknown_schema_effect");
    assert_eq!(effect_name(&SchemaEffect::KnownIrrelevantToSchema), "known_irrelevant_to_schema");
    let sql = b"CREATE TABLE a(id INT);\nDO $$ BEGIN END $$;\n";
    assert_eq!(line_at(sql, 0), 1);
    assert_eq!(line_at(sql, 24), 2);
    assert_eq!(line_at(sql, 10_000), 3);
}
