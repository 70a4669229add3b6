use rest_compiler::descriptor::{
    Dialect, EntityDescriptor, FieldDescriptor, RoleRequirements, ScalarKind,
};
use rest_compiler::sqlgen::{
    dec_str, ddl, delete_sql, insert_sql, placeholder, select_all_sql, select_by_id_sql,
    select_by_parent_sql, update_sql,
};

fn field(name: &str, kind: ScalarKind) -> FieldDescriptor {
    FieldDescriptor {
        name: String::from(name),
        kind,
        is_id: name == "id",
        is_created: name == "created_at",
        is_updated: name == "updated_at",
    }
}

fn post_entity(dialect: Dialect) -> EntityDescriptor {
    EntityDescriptor {
        table: String::from("post"),
        id_field: String::from("id"),
        dialect,
        fields: vec![
            field("id", ScalarKind::Integer),
            field("title", ScalarKind::Text),
            field("content", ScalarKind::Text),
            field("created_at", ScalarKind::Text),
            field("updated_at", ScalarKind::Text),
        ],
        roles: RoleRequirements { read: None, update: None, delete: None },
        relation: None,
    }
}

#[test]
fn ddl_for_post() {
    let e = post_entity(Dialect::Sqlite);
    assert_eq!(
        ddl(&e),
        "CREATE TABLE IF NOT EXISTS post (id INTEGER PRIMARY KEY AUTOINCREMENT, \
         title TEXT, content TEXT, created_at TEXT DEFAULT CURRENT_TIMESTAMP, \
         updated_at TEXT DEFAULT CURRENT_TIMESTAMP)"
    );
}

#[test]
fn ddl_maps_scalar_kinds() {
    let e = EntityDescriptor {
        table: String::from("m"),
        id_field: String::from("id"),
        dialect: Dialect::Sqlite,
        fields: vec![
            field("id", ScalarKind::Integer),
            field("count", ScalarKind::Integer),
            field("ratio", ScalarKind::Real),
            field("label", ScalarKind::Text),
        ],
        roles: RoleRequirements { read: None, update: None, delete: None },
        relation: None,
    };
    assert_eq!(
        ddl(&e),
        "CREATE TABLE IF NOT EXISTS m (id INTEGER PRIMARY KEY AUTOINCREMENT, \
         count INTEGER, ratio REAL, label TEXT)"
    );
}

#[test]
fn insert_sqlite_positional() {
    let e = post_entity(Dialect::Sqlite);
    assert_eq!(insert_sql(&e), "INSERT INTO post (title, content) VALUES (?, ?)");
}

#[test]
fn insert_postgres_ordinal() {
    let e = post_entity(Dialect::Postgres);
    assert_eq!(insert_sql(&e), "INSERT INTO post (title, content) VALUES ($1, $2)");
}

#[test]
fn update_sqlite() {
    let e = post_entity(Dialect::Sqlite);
    assert_eq!(
        update_sql(&e),
        "UPDATE post SET title = ?, content = ?, updated_at = CURRENT_TIMESTAMP WHERE id = ?"
    );
}

#[test]
fn update_postgres_ordinals_match_bind_order() {
    let e = post_entity(Dialect::Postgres);
    let sql = update_sql(&e);
    assert_eq!(
        sql,
        "UPDATE post SET title = $1, content = $2, updated_at = CURRENT_TIMESTAMP WHERE id = $3"
    );
    // placeholder count equals the bound values: two data fields plus the id
    assert_eq!(sql.matches('$').count(), 3);
}

#[test]
fn select_and_delete_templates() {
    let e = post_entity(Dialect::Sqlite);
    assert_eq!(select_all_sql(&e), "SELECT * FROM post");
    assert_eq!(select_by_id_sql(&e), "SELECT * FROM post WHERE id = ?");
    assert_eq!(delete_sql(&e), "DELETE FROM post WHERE id = ?");
}

#[test]
fn select_by_parent_template() {
    let mut e = post_entity(Dialect::Sqlite);
    e.table = String::from("comment");
    e.fields.insert(1, field("post_id", ScalarKind::Integer));
    e.relation = Some(rest_compiler::descriptor::RelationDescriptor {
        field: String::from("post_id"),
        parent_table: String::from("post"),
        parent_column: String::from("id"),
        nested_route: true,
    });
    assert_eq!(select_by_parent_sql(&e), "SELECT * FROM comment WHERE post_id = ?");
}

#[test]
fn decimal_rendering() {
    assert_eq!(dec_str(0), "0");
    assert_eq!(dec_str(7), "7");
    assert_eq!(dec_str(42), "42");
    assert_eq!(dec_str(1234567890), "1234567890");
}

#[test]
fn placeholders_by_dialect() {
    assert_eq!(placeholder(Dialect::Sqlite, 3), "?");
    assert_eq!(placeholder(Dialect::Mysql, 3), "?");
    assert_eq!(placeholder(Dialect::Generic, 3), "?");
    assert_eq!(placeholder(Dialect::Postgres, 3), "$3");
    assert_eq!(placeholder(Dialect::Postgres, 12), "$12");
}
