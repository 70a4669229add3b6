use rest_compiler::descriptor::{
    Dialect, EntityDescriptor, FieldDescriptor, RelationDescriptor, RoleRequirements, ScalarKind,
};
use rest_compiler::partial::{build_patch_sql, patch_bind_values};
use rest_compiler::routes::{routes, HttpMethod};
use rest_compiler::values::Value;

fn field(name: &str, kind: ScalarKind) -> FieldDescriptor {
    FieldDescriptor {
        name: String::from(name),
        kind,
        is_id: name == "id",
        is_created: name == "created_at",
        is_updated: name == "updated_at",
    }
}

fn post_entity(dialect: Dialect) -> EntityDescriptor {
    EntityDescriptor {
        table: String::from("post"),
        id_field: String::from("id"),
        dialect,
        fields: vec![
            field("id", ScalarKind::Integer),
            field("title", ScalarKind::Text),
            field("content", ScalarKind::Text),
            field("created_at", ScalarKind::Text),
            field("updated_at", ScalarKind::Text),
        ],
        roles: RoleRequirements { read: None, update: None, delete: None },
        relation: None,
    }
}

fn comment_entity() -> EntityDescriptor {
    EntityDescriptor {
        table: String::from("comment"),
        id_field: String::from("id"),
        dialect: Dialect::Sqlite,
        fields: vec![
            field("id", ScalarKind::Integer),
            field("post_id", ScalarKind::Integer),
            field("body", ScalarKind::Text),
        ],
        roles: RoleRequirements { read: None, update: None, delete: None },
        relation: Some(RelationDescriptor {
            field: String::from("post_id"),
            parent_table: String::from("post"),
            parent_column: String::from("id"),
            nested_route: true,
        }),
    }
}

fn text(s: &str) -> Value {
    Value::Text(String::from(s))
}

#[test]
fn route_table_for_plain_entity() {
    let r = routes(&post_entity(Dialect::Sqlite));
    assert_eq!(r.len(), 6);
    assert!(matches!(r[0].method, HttpMethod::Get));
    assert_eq!(r[0].path, "/post");
    assert!(matches!(r[1].method, HttpMethod::Post));
    assert_eq!(r[1].path, "/post");
    assert!(matches!(r[2].method, HttpMethod::Get));
    assert_eq!(r[2].path, "/post/{id}");
    assert!(matches!(r[3].method, HttpMethod::Put));
    assert!(matches!(r[4].method, HttpMethod::Patch));
    assert!(matches!(r[5].method, HttpMethod::Delete));
    assert_eq!(r[5].path, "/post/{id}");
}

#[test]
fn route_table_with_nested_route() {
    let r = routes(&comment_entity());
    assert_eq!(r.len(), 7);
    assert!(matches!(r[6].method, HttpMethod::Get));
    assert_eq!(r[6].path, "/post/{parent_id}/comment");
}

#[test]
fn nested_route_disabled_drops_the_route() {
    let mut e = comment_entity();
    if let Some(rel) = &mut e.relation {
        rel.nested_route = false;
    }
    assert_eq!(routes(&e).len(), 6);
}

#[test]
fn patch_sql_for_present_subset() {
    let e = post_entity(Dialect::Sqlite);
    let partial = vec![None, Some(text("c")), None, None, None];
    let sql = build_patch_sql(&e, &partial).unwrap();
    assert_eq!(sql, "UPDATE post SET title = ?, updated_at = CURRENT_TIMESTAMP WHERE id = ?");
}

#[test]
fn patch_sql_postgres_ordinals() {
    let e = post_entity(Dialect::Postgres);
    let partial = vec![None, Some(text("c")), Some(text("d")), None, None];
    let sql = build_patch_sql(&e, &partial).unwrap();
    assert_eq!(
        sql,
        "UPDATE post SET title = $1, content = $2, updated_at = CURRENT_TIMESTAMP WHERE id = $3"
    );
    assert_eq!(sql.matches('$').count(), 3);
}

#[test]
fn patch_sql_zero_present_is_none() {
    let e = post_entity(Dialect::Sqlite);
    let partial = vec![None, None, None, None, None];
    assert!(build_patch_sql(&e, &partial).is_none());
}

#[test]
fn patch_sql_explicit_updated_at_suppresses_the_automatic_assignment() {
    let e = post_entity(Dialect::Sqlite);
    let partial = vec![None, None, None, None, Some(text("t9"))];
    let sql = build_patch_sql(&e, &partial).unwrap();
    assert_eq!(sql, "UPDATE post SET updated_at = ? WHERE id = ?");
}

#[test]
fn patch_bind_order_follows_declaration_order() {
    let e = post_entity(Dialect::Sqlite);
    let partial = vec![None, Some(text("c")), Some(text("d")), None, None];
    let binds = patch_bind_values(&e, &partial);
    assert_eq!(binds, vec![text("c"), text("d")]);
}
