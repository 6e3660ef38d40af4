//! Definitions: building, rendering, describing, and the way from a generator's
//! definitions to the catalog's.

use surreal_lance::catalog::ast;
use surreal_lance::catalog::auth::AuthLimit;
use surreal_lance::catalog::expr::{
    escape_ident, join_parts, quote_text, BinaryOperator, Expr, Idiom, Kind, Literal, TableName,
};
use surreal_lance::catalog::op_bridge::{bridge_schema, rails_assert_to_expr};
use surreal_lance::catalog::revision_error::RevisionError;
use surreal_lance::catalog::schema::field::{ComputedDeps, FieldDefinition};
use surreal_lance::catalog::schema::index::IndexDefinition;
use surreal_lance::catalog::statements::{
    ChangeFeed, DefineDefault, DefineKind, Permission, Permissions, Reference, ViewDefinition,
};
use surreal_lance::catalog::table::{
    DatabaseId, NamespaceId, Relation, TableDefinition, TableId, TableType, Uuid,
};
use surreal_lance::catalog::value::Value;

fn idiom(s: &str) -> Idiom {
    Idiom::field(s.to_string())
}

// --- fields -------------------------------------------------------------

#[test]
fn new_for_ddl_defaults_to_no_kind_and_no_constraints() {
    let f = FieldDefinition::new_for_ddl(idiom("name"), TableName::from("widget"));
    assert!(f.field_kind.is_none());
    assert!(f.value.is_none());
    assert!(f.assertion.is_none());
    assert!(f.computed.is_none());
    assert!(!f.flexible);
    assert!(!f.readonly);
    assert!(f.comment.is_none());
    assert!(f.reference.is_none());
}

#[test]
fn new_for_ddl_carries_name_and_table_through_to_sql() {
    let f = FieldDefinition::new_for_ddl(idiom("subject"), TableName::from("WorkPackage"));
    let sql = f.to_sql();
    assert!(sql.contains("subject"), "field name missing: {sql}");
    assert!(sql.contains("WorkPackage"), "table missing: {sql}");
}

#[test]
fn with_kind_round_trips() {
    let f = FieldDefinition::new_for_ddl(idiom("count"), TableName::from("t"))
        .with_kind(Some(Kind::Int));
    assert!(matches!(f.field_kind, Some(Kind::Int)));
}

#[test]
fn with_flexible_and_readonly_round_trip() {
    let f = FieldDefinition::new_for_ddl(idiom("c"), TableName::from("t"))
        .with_flexible(true)
        .with_readonly(true);
    assert!(f.flexible);
    assert!(f.readonly);
}

#[test]
fn field_with_comment_round_trips() {
    let f = FieldDefinition::new_for_ddl(idiom("c"), TableName::from("t"))
        .with_comment(Some("hi".to_string()));
    assert_eq!(f.comment.as_deref(), Some("hi"));
}

#[test]
fn field_builder_output_equals_struct_literal_output() {
    let raw = FieldDefinition {
        name: idiom("subject"),
        table: TableName::from("WorkPackage"),
        field_kind: Some(Kind::Int),
        flexible: true,
        readonly: false,
        value: None,
        assertion: None,
        computed: None,
        default: DefineDefault::Unset,
        select_permission: Permission::default(),
        create_permission: Permission::default(),
        update_permission: Permission::default(),
        comment: Some("the subject".to_string()),
        reference: None,
        auth_limit: AuthLimit::new_no_limit(),
        computed_deps: None,
    };
    let built = FieldDefinition::new_for_ddl(idiom("subject"), TableName::from("WorkPackage"))
        .with_kind(Some(Kind::Int))
        .with_flexible(true)
        .with_comment(Some("the subject".to_string()));
    assert_eq!(raw.to_sql(), built.to_sql());
    assert_eq!(raw, built);
}

#[test]
fn field_renders_every_clause_in_order() {
    let value = || Expr::Param("value".to_string());
    let mut f = FieldDefinition::new_for_ddl(idiom("owner"), TableName::from("doc"))
        .with_kind(Some(Kind::option(Kind::Record(vec![TableName::from("user")]))))
        .with_flexible(true)
        .with_readonly(true)
        .with_value(Some(Expr::Literal(Literal::Integer(-7))))
        .with_assert(Some(Expr::Binary {
            left: Box::new(value()),
            op: BinaryOperator::NotEqual,
            right: Box::new(Expr::Literal(Literal::Nothing)),
        }))
        .with_computed(Some(Expr::Literal(Literal::Bool(true))))
        .with_comment(Some("it's".to_string()))
        .with_reference(Some(Reference::Cascade));
    f.default = DefineDefault::Always(Expr::Literal(Literal::Integer(0)));
    f.update_permission = Permission::Nobody;
    f.select_permission = Permission::Specific(value());
    assert_eq!(
        f.to_sql(),
        "DEFINE FIELD owner ON doc TYPE none | record<user> FLEXIBLE DEFAULT ALWAYS 0 READONLY \
         VALUE -7 ASSERT $value != NONE COMPUTED true COMMENT 'it\\'s' \
         REFERENCE ON DELETE CASCADE PERMISSIONS FOR select WHERE $value, FOR create FULL, \
         FOR update NONE, FOR delete FULL"
    );
    let statement = f.to_sql_definition();
    assert_eq!(statement.kind, DefineKind::Default);
    assert!(matches!(statement.permissions.delete, Permission::Full));
}

#[test]
fn field_describes_itself_with_names_in_order() {
    let mut f = FieldDefinition::new_for_ddl(idiom("n"), TableName::from("t"))
        .with_kind(Some(Kind::Int))
        .with_comment(Some("c".to_string()));
    f.default = DefineDefault::Initial(Expr::Literal(Literal::Integer(3)));
    let Value::Object(entries) = f.structure() else {
        panic!("a field is described by an object");
    };
    let names: Vec<&str> = entries.iter().map(|(n, _)| n.as_str()).collect();
    assert_eq!(
        names,
        vec![
            "comment",
            "default",
            "default_always",
            "kind",
            "name",
            "permissions",
            "readonly",
            "table"
        ]
    );
    let mut sorted = names.clone();
    sorted.sort();
    assert_eq!(names, sorted);
    assert_eq!(entries[1].1, Value::String("3".to_string()));
    assert_eq!(entries[2].1, Value::Bool(false));
    assert_eq!(entries[3].1, Value::String("int".to_string()));
    assert_eq!(
        entries[5].1,
        Value::Object(vec![
            ("create".to_string(), Value::Bool(true)),
            ("select".to_string(), Value::Bool(true)),
            ("update".to_string(), Value::Bool(true)),
        ])
    );
}

#[test]
fn bare_field_describes_only_what_every_field_has() {
    let f = FieldDefinition::new_for_ddl(idiom("n"), TableName::from("t"));
    let Value::Object(entries) = f.structure() else {
        panic!("a field is described by an object");
    };
    let names: Vec<&str> = entries.iter().map(|(n, _)| n.as_str()).collect();
    assert_eq!(names, vec!["name", "permissions", "readonly", "table"]);
}

#[test]
fn older_fields_have_no_limit_and_unknown_dependencies() {
    assert_eq!(FieldDefinition::default_auth_limit(1).unwrap(), AuthLimit::new_no_limit());
    assert!(FieldDefinition::default_computed_deps(2).unwrap().is_none());
    assert_eq!(
        ComputedDeps::default(),
        ComputedDeps { fields: vec![], is_complete: false }
    );
}

#[test]
fn field_text_ignores_limit_and_dependencies() {
    let plain = FieldDefinition::new_for_ddl(idiom("n"), TableName::from("t"));
    let mut limited = plain.clone();
    limited.auth_limit = AuthLimit { role: Some("viewer".to_string()) };
    limited.computed_deps =
        Some(ComputedDeps { fields: vec!["a".to_string()], is_complete: true });
    assert_ne!(plain, limited);
    assert_eq!(plain.to_sql(), limited.to_sql());
}

// --- tables -------------------------------------------------------------

#[test]
fn new_for_ddl_does_not_leak_table_id_into_render() {
    let t = TableDefinition::new_for_ddl("widget").with_schemafull(true);
    let sql = t.to_sql();
    assert!(!sql.contains(" 0 "), "raw 0 leaked into render: {sql}");
    assert!(sql.contains("widget"), "table name missing: {sql}");
    assert!(sql.contains("SCHEMAFULL"), "schemafull missing: {sql}");
}

#[test]
fn table_builder_output_equals_struct_literal_output() {
    let now = Uuid::now_v7();
    let raw = TableDefinition {
        namespace_id: NamespaceId(0),
        database_id: DatabaseId(0),
        table_id: TableId(0),
        name: TableName::from("widget"),
        drop: false,
        schemafull: true,
        view: None,
        permissions: Permissions::none(),
        changefeed: None,
        comment: Some("a widget".to_string()),
        table_type: TableType::Normal,
        cache_fields_ts: now,
        cache_events_ts: now,
        cache_tables_ts: now,
        cache_indexes_ts: now,
    };
    let built = TableDefinition::new_for_ddl("widget")
        .with_schemafull(true)
        .with_comment(Some("a widget".to_string()))
        .with_table_type(TableType::Normal)
        .with_permissions(Permissions::none());
    assert_eq!(raw.to_sql(), built.to_sql());
}

#[test]
fn with_schemafull_round_trips() {
    assert!(TableDefinition::new_for_ddl("t").with_schemafull(true).schemafull);
    assert!(!TableDefinition::new_for_ddl("t").with_schemafull(false).schemafull);
}

#[test]
fn with_drop_round_trips() {
    assert!(TableDefinition::new_for_ddl("t").with_drop(true).drop);
}

#[test]
fn table_with_comment_round_trips() {
    let t = TableDefinition::new_for_ddl("t").with_comment(Some("hi".to_string()));
    assert_eq!(t.comment.as_deref(), Some("hi"));
}

#[test]
fn with_table_type_round_trips() {
    let t = TableDefinition::new_for_ddl("t").with_table_type(TableType::Normal);
    assert!(matches!(t.table_type, TableType::Normal));
}

#[test]
fn new_for_ddl_supplies_dummy_ids_and_now_caches() {
    let t = TableDefinition::new_for_ddl("t");
    assert_eq!(t.namespace_id.0, 0);
    assert_eq!(t.database_id.0, 0);
    assert_eq!(t.table_id.0, 0);
    assert_ne!(t.cache_fields_ts, Uuid::nil());
}

#[test]
fn chained_builders_preserve_all_set_values() {
    let t = TableDefinition::new_for_ddl("multi")
        .with_schemafull(true)
        .with_drop(false)
        .with_comment(Some("c".to_string()))
        .with_table_type(TableType::Normal);
    assert_eq!(t.name.clone().into_string(), "multi");
    assert!(t.schemafull);
    assert!(!t.drop);
    assert_eq!(t.comment.as_deref(), Some("c"));
    assert!(matches!(t.table_type, TableType::Normal));
}

#[test]
fn cache_times_are_version_seven_and_rise() {
    let a = Uuid::now_v7();
    let b = Uuid::now_v7();
    assert_eq!((a.0 >> 76) & 0xf, 7);
    assert_eq!((a.0 >> 62) & 3, 2);
    assert!(a < b);
    let t = TableDefinition::new_for_ddl("t");
    assert_eq!(t.cache_fields_ts, t.cache_events_ts);
    assert_eq!(t.cache_fields_ts, t.cache_tables_ts);
    assert_eq!(t.cache_fields_ts, t.cache_indexes_ts);
}

#[test]
fn table_text_is_the_same_for_every_number() {
    let a = TableDefinition::new(
        NamespaceId(1),
        DatabaseId(2),
        TableId(3),
        TableName::from("t"),
    );
    let b = TableDefinition::new_for_ddl("t");
    assert_eq!(a.table_id, TableId(3));
    assert_eq!(a.to_sql(), b.to_sql());
    assert_eq!(
        a.to_sql(),
        "DEFINE TABLE t TYPE ANY SCHEMALESS PERMISSIONS FOR select NONE, FOR create NONE, \
         FOR update NONE, FOR delete NONE"
    );
}

#[test]
fn table_renders_every_clause_in_order() {
    let mut t = TableDefinition::new_for_ddl("2nd")
        .with_drop(true)
        .with_comment(Some("c".to_string()))
        .with_view(Some(ViewDefinition { select: "SELECT * FROM a".to_string() }))
        .with_table_type(TableType::Relation(Relation {
            from: vec!["a".to_string(), "b c".to_string()],
            to: vec!["d".to_string()],
            enforced: true,
        }));
    t.changefeed = Some(ChangeFeed { expiry_secs: 90, store_diff: true });
    assert_eq!(
        t.to_sql(),
        "DEFINE TABLE `2nd` TYPE RELATION IN a | `b c` OUT d ENFORCED DROP SCHEMALESS \
         COMMENT 'c' AS SELECT * FROM a CHANGEFEED 90s INCLUDE ORIGINAL \
         PERMISSIONS FOR select NONE, FOR create NONE, FOR update NONE, FOR delete NONE"
    );
}

#[test]
fn table_describes_itself() {
    let mut t = TableDefinition::new(
        NamespaceId(1),
        DatabaseId(2),
        TableId(7),
        TableName::from("t"),
    )
    .with_table_type(TableType::Relation(Relation {
        from: vec!["a".to_string()],
        to: vec![],
        enforced: false,
    }));
    t.changefeed = Some(ChangeFeed { expiry_secs: 5, store_diff: false });
    let Value::Object(entries) = t.structure() else {
        panic!("a table is described by an object");
    };
    let names: Vec<&str> = entries.iter().map(|(n, _)| n.as_str()).collect();
    assert_eq!(
        names,
        vec!["changefeed", "drop", "id", "kind", "name", "permissions", "schemafull"]
    );
    assert_eq!(entries[2].1, Value::Number(7));
    assert_eq!(
        entries[3].1,
        Value::Object(vec![
            ("enforced".to_string(), Value::Bool(false)),
            ("in".to_string(), Value::Array(vec![Value::String("a".to_string())])),
            ("kind".to_string(), Value::String("RELATION".to_string())),
        ])
    );
    assert_eq!(
        entries[0].1,
        Value::Object(vec![
            ("expiry".to_string(), Value::String("5s".to_string())),
            ("original".to_string(), Value::Bool(false)),
        ])
    );
}

#[test]
fn table_types_say_what_they_allow() {
    let any = TableDefinition::new_for_ddl("t");
    assert!(any.allows_normal() && any.allows_relation());
    let normal = TableDefinition::new_for_ddl("t").with_table_type(TableType::Normal);
    assert!(normal.allows_normal() && !normal.allows_relation());
    let relation = TableDefinition::new_for_ddl("t").with_table_type(TableType::Relation(
        Relation { from: vec![], to: vec![], enforced: false },
    ));
    assert!(!relation.allows_normal() && relation.allows_relation());
    assert_eq!(relation.table_type.to_sql(), "RELATION");
    assert_eq!(TableType::default(), TableType::Any);
}

#[test]
fn table_numbers_are_stored_and_read_back() {
    for n in [0u32, 1, 250, 251, 255, 256, 65535, 65536, 1 << 24, u32::MAX] {
        let mut bytes = vec![9u8];
        TableId(n).serialize_revisioned(&mut bytes).unwrap();
        assert_eq!(bytes[0], 9);
        bytes.push(77);
        assert_eq!(TableId::deserialize_revisioned(&bytes[1..]).unwrap(), TableId(n));
    }
    let mut bytes = Vec::new();
    TableId(250).serialize_revisioned(&mut bytes).unwrap();
    TableId(0x1234).serialize_revisioned(&mut bytes).unwrap();
    TableId(0x0102_0304).serialize_revisioned(&mut bytes).unwrap();
    assert_eq!(bytes, vec![250, 251, 0x34, 0x12, 252, 4, 3, 2, 1]);
    assert_eq!(TableId::revision(), 1);
}

#[test]
fn broken_table_numbers_are_refused() {
    let read = |b: &[u8]| TableId::deserialize_revisioned(b);
    assert!(matches!(read(&[]), Err(RevisionError::Truncated)));
    assert!(matches!(read(&[251, 1]), Err(RevisionError::Truncated)));
    assert!(matches!(read(&[252, 1, 2, 3]), Err(RevisionError::Truncated)));
    assert!(matches!(read(&[253, 0, 0, 0, 0, 0, 0, 0]), Err(RevisionError::Truncated)));
    assert!(matches!(
        read(&[253, 0, 0, 0, 0, 1, 0, 0, 0]),
        Err(RevisionError::IntegerOverflow)
    ));
    assert_eq!(read(&[253, 5, 0, 0, 0, 0, 0, 0, 0]).unwrap(), TableId(5));
    assert!(matches!(read(&[254]), Err(RevisionError::IntegerOverflow)));
    assert!(matches!(read(&[255]), Err(RevisionError::InvalidIntegerEncoding)));
}

#[test]
fn first_revision_relations_are_converted() {
    let mut r = Relation { from: vec!["old".to_string()], to: vec![], enforced: true };
    assert!(r.rev_convert_from(1, None).is_ok());
    assert_eq!(r.from, vec!["old".to_string()]);
    let tables = Kind::Record(vec![TableName::from("a"), TableName::from("b")]);
    assert!(r.rev_convert_from(1, Some(tables)).is_ok());
    assert_eq!(r.from, vec!["a".to_string(), "b".to_string()]);
    assert!(r.rev_convert_to(1, Some(Kind::Record(vec![TableName::from("c")]))).is_ok());
    assert_eq!(r.to, vec!["c".to_string()]);
    let before = r.clone();
    let Err(RevisionError::Conversion(message)) = r.rev_convert_to(1, Some(Kind::Int)) else {
        panic!("only records are tables");
    };
    assert_eq!(
        message,
        "Invalid kind within table relation, should have been a record, found: Int"
    );
    assert_eq!(r, before);
    let Err(RevisionError::Conversion(message)) =
        r.rev_convert_from(1, Some(Kind::option(Kind::Int)))
    else {
        panic!("only records are tables");
    };
    assert_eq!(
        message,
        "Invalid kind within table relation, should have been a record, found: \
         Either(\n    [\n        None,\n        Int,\n    ],\n)"
    );
    assert_eq!(r, before);
}

#[test]
fn kinds_have_the_debug_form_of_their_variants() {
    let names = vec![TableName::from("person"), TableName::from("a\"b\n\u{7f}")];
    let kinds = vec![
        Kind::Any,
        Kind::String,
        Kind::Uuid,
        Kind::Record(vec![]),
        Kind::Either(vec![]),
        Kind::Either(vec![Kind::Record(names), Kind::Either(vec![Kind::Bool]), Kind::Bytes]),
    ];
    for kind in kinds {
        assert_eq!(kind.debug_text(), format!("{:#?}", kind));
    }
    assert_eq!(Kind::Nothing.debug_text(), "None");
}

#[test]
fn a_copied_table_keeps_its_numbers() {
    let table = ast::TableDefinition::new("person");
    let mut bridged = bridge_schema(ast::TableSchema::new().with_table(table)).remove(0);
    bridged.table.namespace_id = NamespaceId(4);
    bridged.table.database_id = DatabaseId(5);
    assert_eq!(bridged.clone(), bridged);
}

// --- names and texts -----------------------------------------------------

#[test]
fn names_are_quoted_where_they_must_be() {
    assert_eq!(escape_ident("a_1"), "a_1");
    assert_eq!(escape_ident("1a"), "`1a`");
    assert_eq!(escape_ident(""), "``");
    assert_eq!(escape_ident("a`b\\"), "`a\\`b\\\\`");
    assert_eq!(escape_ident("\u{e9}"), "`\u{e9}`");
    assert_eq!(quote_text("a'b"), "'a\\'b'");
    let parts = vec!["a".to_string(), "b".to_string(), "c".to_string()];
    assert_eq!(join_parts(&parts, ", "), "a, b, c");
    assert_eq!(join_parts(&vec![], ", "), "");
}

#[test]
fn integers_render_in_decimal() {
    let sql = |n: i64| Literal::Integer(n).to_sql();
    assert_eq!(sql(0), "0");
    assert_eq!(sql(907), "907");
    assert_eq!(sql(i64::MIN), "-9223372036854775808");
    assert_eq!(sql(i64::MAX), "9223372036854775807");
}

// --- from a generator's definitions ---------------------------------------

#[test]
fn kind_any_maps_to_catalog_any() {
    let k: Kind = ast::Kind::Any.into();
    assert!(matches!(k, Kind::Any));
}

#[test]
fn kind_int_maps_to_catalog_int() {
    let k: Kind = ast::Kind::Int.into();
    assert!(matches!(k, Kind::Int));
}

#[test]
fn kind_record_carries_target_table_name() {
    let k: Kind = ast::Kind::Record(vec!["Project".to_string()]).into();
    let Kind::Record(targets) = k else {
        panic!("expected Record");
    };
    assert_eq!(targets.len(), 1);
    assert_eq!(targets[0].as_str(), "Project");
}

#[test]
fn d_ar_6_2_scalar_variants_map_one_to_one() {
    let cases: Vec<(ast::Kind, Kind)> = vec![
        (ast::Kind::String, Kind::String),
        (ast::Kind::Bool, Kind::Bool),
        (ast::Kind::Float, Kind::Float),
        (ast::Kind::Decimal, Kind::Decimal),
        (ast::Kind::Datetime, Kind::Datetime),
        (ast::Kind::Bytes, Kind::Bytes),
        (ast::Kind::Uuid, Kind::Uuid),
    ];
    for (ast_kind, expected) in cases {
        let bridged: Kind = ast_kind.clone().into();
        assert_eq!(
            bridged, expected,
            "ast::Kind::{ast_kind:?} did not map to {expected:?}",
        );
    }
}

#[test]
fn d_ar_6_2_option_wrapped_scalar_bridges_via_either() {
    let ast_optional_string = ast::Kind::String.optional();
    let bridged: Kind = ast_optional_string.into();
    let Kind::Either(arms) = bridged else {
        panic!("expected Either(None, String); got non-Either");
    };
    assert_eq!(arms.len(), 2);
    let has_none = arms.iter().any(|k| matches!(k, Kind::Nothing));
    let has_string = arms.iter().any(|k| matches!(k, Kind::String));
    assert!(has_none, "Option<T> must include None arm");
    assert!(has_string, "Option<String> must include String arm");
}

#[test]
fn d_ar_6_3_field_definition_bridges_assert_clause() {
    let ast_field = ast::FieldDefinition::new("subject", "WorkPackage", ast::Kind::String)
        .with_assert(Some("$value != NONE".to_string()));
    let cat: FieldDefinition = ast_field.into();
    let assertion = cat.assertion.as_ref().expect("assert must be set on bridged field");
    match assertion {
        Expr::Binary { left, op, right } => {
            assert!(
                matches!(left.as_ref(), Expr::Param(p) if p == "value"),
                "expected $value param on the left arm",
            );
            assert!(matches!(op, BinaryOperator::NotEqual));
            assert!(matches!(right.as_ref(), Expr::Literal(Literal::Nothing)));
        }
        other => panic!("expected Binary(...) assert; got {other:?}"),
    }
}

#[test]
fn d_ar_6_3_assert_normalized_comment_is_stripped() {
    let ast_field = ast::FieldDefinition::new("email", "User", ast::Kind::String.optional())
        .with_assert(Some("$value != NONE /* normalized */".to_string()));
    let cat: FieldDefinition = ast_field.into();
    assert!(
        cat.assertion.as_ref().is_some(),
        "normalize-annotated assert must still lower",
    );
}

#[test]
fn d_ar_6_3_no_assert_when_ast_field_has_none() {
    let ast_field = ast::FieldDefinition::new("subject", "WorkPackage", ast::Kind::Any);
    let cat: FieldDefinition = ast_field.into();
    assert!(
        cat.assertion.as_ref().is_none(),
        "expected no assert when ast field carries None",
    );
}

#[test]
fn d_ar_6_3_unknown_assert_string_lowers_to_none() {
    let ast_field = ast::FieldDefinition::new("score", "Test", ast::Kind::Int.optional())
        .with_assert(Some("$value > 100 AND $value < 1000".to_string()));
    let cat: FieldDefinition = ast_field.into();
    assert!(cat.assertion.as_ref().is_none());
}

#[test]
fn kind_option_nests_correctly() {
    let k: Kind = ast::Kind::Int.optional().into();
    let Kind::Either(arms) = k else {
        panic!("expected Either (catalog's representation of optional)");
    };
    assert_eq!(arms.len(), 2, "Either(None, T) has two arms");
    assert!(arms.iter().any(|a| matches!(a, Kind::Nothing)));
    assert!(arms.iter().any(|a| matches!(a, Kind::Int)));
}

#[test]
fn table_definition_uses_new_for_ddl_with_zero_ids() {
    let ast_table = ast::TableDefinition::new("WorkPackage");
    let cat: TableDefinition = ast_table.into();
    assert_eq!(cat.name.as_str(), "WorkPackage");
    assert!(cat.schemafull, "schemafull true mirrors AST default");
}

#[test]
fn table_type_normal_maps_to_non_relation_semantic() {
    let ast_table = ast::TableDefinition::new("WorkPackage");
    let cat: TableDefinition = ast_table.into();
    assert!(
        !cat.allows_relation(),
        "AR table must NOT allow relation insertion (Normal != Any)",
    );
}

#[test]
fn field_definition_carries_name_table_and_kind() {
    let ast_field = ast::FieldDefinition::new("subject", "WorkPackage", ast::Kind::Any);
    let cat: FieldDefinition = ast_field.into();
    let sql = cat.to_sql();
    assert!(sql.contains("subject"), "field name missing: {sql}");
    assert!(sql.contains("WorkPackage"), "table missing: {sql}");
    assert!(sql.contains("ANY") || sql.contains("any"), "kind missing: {sql}");
}

#[test]
fn index_definition_carries_name_table_and_cols() {
    let ast_idx = ast::IndexDefinition::new(
        "idx_WorkPackage_project_id",
        "WorkPackage",
        vec!["project_id".to_string()],
    );
    let cat: IndexDefinition = ast_idx.into();
    let sql = cat.to_sql();
    assert!(
        sql.contains("idx_WorkPackage_project_id"),
        "index name missing: {sql}"
    );
    assert!(sql.contains("WorkPackage"), "table missing: {sql}");
    assert!(sql.contains("project_id"), "column missing: {sql}");
}

#[test]
fn index_renders_its_columns_in_order() {
    let index = IndexDefinition {
        name: "i".to_string(),
        table_name: TableName::from("t"),
        cols: vec![
            Idiom(vec!["a".to_string(), "b".to_string()]),
            Idiom(vec!["c".to_string()]),
        ],
        comment: Some("x".to_string()),
    };
    assert_eq!(index.to_sql(), "DEFINE INDEX i ON t FIELDS a.b, c COMMENT 'x'");
}

#[test]
fn bridge_schema_preserves_table_order_and_attaches_children() {
    let schema = ast::TableSchema::new()
        .with_table(
            ast::TableDefinition::new("WorkPackage")
                .with_field(ast::FieldDefinition::new("subject", "WorkPackage", ast::Kind::Any))
                .with_index(ast::IndexDefinition::new(
                    "idx_WP_subject",
                    "WorkPackage",
                    vec!["subject".to_string()],
                )),
        )
        .with_table(ast::TableDefinition::new("Project"));
    let bridged = bridge_schema(schema);
    assert_eq!(bridged.len(), 2);
    assert_eq!(bridged[0].table.name.as_str(), "WorkPackage");
    assert_eq!(bridged[0].fields.len(), 1);
    assert_eq!(bridged[0].indices.len(), 1);
    assert_eq!(bridged[1].table.name.as_str(), "Project");
    assert!(bridged[1].fields.is_empty());
    assert!(bridged[1].indices.is_empty());
    assert_eq!(bridged[0].clone(), bridged[0]);
}

#[test]
fn ast_and_catalog_render_byte_for_byte_compatible_ddl() {
    let ast_table = ast::TableDefinition::new("Project")
        .with_field(ast::FieldDefinition::new("identifier", "Project", ast::Kind::Any))
        .with_field(ast::FieldDefinition::new(
            "status_id",
            "Project",
            ast::Kind::Int.optional(),
        ))
        .with_index(ast::IndexDefinition::new(
            "idx_Project_status_id",
            "Project",
            vec!["status_id".to_string()],
        ));

    let ast_sql = ast_table.to_sql();
    assert!(ast_sql.contains("DEFINE TABLE Project SCHEMAFULL;"));
    assert!(ast_sql.contains("DEFINE FIELD identifier ON TABLE Project TYPE any;"));
    assert!(ast_sql.contains("DEFINE FIELD status_id ON TABLE Project TYPE option<int>;"));
    assert!(ast_sql
        .contains("DEFINE INDEX idx_Project_status_id ON TABLE Project FIELDS status_id;"));

    let cat_table: TableDefinition = ast_table.clone().into();
    let cat_field: FieldDefinition = ast_table.fields[0].clone().into();
    let cat_idx: IndexDefinition = ast_table.indices[0].clone().into();

    let cat_table_sql = cat_table.to_sql();
    let cat_field_sql = cat_field.to_sql();
    let cat_idx_sql = cat_idx.to_sql();

    assert!(cat_table_sql.contains("Project"), "table renders name");
    assert!(
        cat_field_sql.contains("identifier") && cat_field_sql.contains("Project"),
        "field renders name + table",
    );
    assert!(
        cat_idx_sql.contains("idx_Project_status_id") && cat_idx_sql.contains("status_id"),
        "index renders name + col",
    );
}

#[test]
fn assertions_are_read_up_to_comments_and_spaces() {
    for s in [
        "$value != NONE",
        "  $value\t!=\n\u{b}NONE\u{c}\r",
        "/* a */$value != NONE",
        "$value/**/ != /* x * / */NONE",
        "$value != NONE /* not closed",
        "$value != NONE /*",
        "$value != NONE /***/",
    ] {
        let e = rails_assert_to_expr(s).expect(s);
        assert_eq!(e.to_sql(), "$value != NONE", "{s:?}");
    }
    for s in [
        "",
        "$value!=NONE",
        "$value /* */ != NONE x",
        "$value != NONE /",
        "$value != NONE */",
        "$value /*/ != NONE",
        "$value != none",
        "$value\u{a0}!= NONE",
        "$value != NONE\u{85}",
        "$value\u{3000}!= NONE",
    ] {
        assert!(rails_assert_to_expr(s).is_none(), "{s:?}");
    }
}
