use rest_compiler::auth::Identity;
use rest_compiler::descriptor::EntityDescriptor;
use rest_compiler::extract::{extract, EntityAnnotation, FieldAnnotation};
use rest_compiler::handlers::{
    handle_create, handle_delete, handle_get_one, handle_list, handle_list_children,
    handle_patch, handle_replace, status_code, Response,
};
use rest_compiler::store::{materialize, new_store, EntityStore};
use rest_compiler::values::Value;

fn plain_field(name: &str, declared: &str) -> FieldAnnotation {
    FieldAnnotation {
        name: String::from(name),
        declared_type: String::from(declared),
        foreign_key: None,
        references: None,
        nested_route: None,
    }
}

/// Entity `post` = {id, title, content, created_at, updated_at}, all three
/// operation roles set to "user".
fn post_entity() -> EntityDescriptor {
    extract(&EntityAnnotation {
        table: String::from("post"),
        id: String::from("id"),
        dialect: Some(String::from("sqlite")),
        read_role: Some(String::from("user")),
        update_role: Some(String::from("user")),
        delete_role: Some(String::from("user")),
        fields: vec![
            plain_field("id", "i64"),
            plain_field("title", "String"),
            plain_field("content", "String"),
            plain_field("created_at", "String"),
            plain_field("updated_at", "String"),
        ],
    })
    .unwrap()
}

/// Entity `comment` with a relation field `post_id -> post.id`.
fn comment_entity() -> EntityDescriptor {
    let mut post_id = plain_field("post_id", "i64");
    post_id.foreign_key = Some(String::from("post_id"));
    post_id.references = Some(String::from("post.id"));
    extract(&EntityAnnotation {
        table: String::from("comment"),
        id: String::from("id"),
        dialect: None,
        read_role: None,
        update_role: None,
        delete_role: None,
        fields: vec![plain_field("id", "i64"), post_id, plain_field("body", "String")],
    })
    .unwrap()
}

fn user() -> Identity {
    Identity { roles: vec![String::from("user")] }
}

fn admin() -> Identity {
    Identity { roles: vec![String::from("admin")] }
}

fn stranger() -> Identity {
    Identity { roles: vec![String::from("guest")] }
}

fn text(s: &str) -> Value {
    Value::Text(String::from(s))
}

/// A full-width payload for `post`: the id and timestamp slots are filled
/// by the store, their payload cells are ignored.
fn post_payload(title: &str, content: &str) -> Vec<Value> {
    vec![Value::Int(0), text(title), text(content), text(""), text("")]
}

fn ready_post_store() -> (EntityDescriptor, EntityStore) {
    let e = post_entity();
    let mut s = new_store();
    materialize(&mut s);
    (e, s)
}

#[test]
fn post_create_then_get() {
    let (e, mut s) = ready_post_store();
    let r = handle_create(&e, &mut s, &user(), &post_payload("a", "b"), "t1");
    assert_eq!(status_code(&r), 201);
    let new_id = match r {
        Response::Created(id) => id,
        _ => panic!("expected created"),
    };
    assert_eq!(new_id, 1);
    let g = handle_get_one(&e, &s, &user(), new_id);
    assert_eq!(status_code(&g), 200);
    match g {
        Response::Row(row) => {
            assert_eq!(row[0], Value::Int(1));
            assert_eq!(row[1], text("a"));
            assert_eq!(row[2], text("b"));
            assert_eq!(row[3], text("t1"));
            assert_eq!(row[4], text("t1"));
        },
        _ => panic!("expected row"),
    }
}

#[test]
fn patch_updates_only_present_fields() {
    let (e, mut s) = ready_post_store();
    handle_create(&e, &mut s, &user(), &post_payload("a", "b"), "t1");
    let partial = vec![None, Some(text("c")), None, None, None];
    let r = handle_patch(&e, &mut s, &user(), 1, &partial, "t2");
    assert_eq!(status_code(&r), 200);
    match handle_get_one(&e, &s, &user(), 1) {
        Response::Row(row) => {
            assert_eq!(row[1], text("c"));
            assert_eq!(row[2], text("b"));
            assert_eq!(row[3], text("t1"));
            assert_eq!(row[4], text("t2"));
        },
        _ => panic!("expected row"),
    }
}

#[test]
fn patch_with_zero_present_fields_is_a_no_op_success() {
    let (e, mut s) = ready_post_store();
    handle_create(&e, &mut s, &user(), &post_payload("a", "b"), "t1");
    let partial = vec![None, None, None, None, None];
    let r = handle_patch(&e, &mut s, &user(), 1, &partial, "t2");
    assert_eq!(status_code(&r), 200);
    match handle_get_one(&e, &s, &user(), 1) {
        Response::Row(row) => {
            // no statement was issued: even the updated timestamp is unchanged
            assert_eq!(row[4], text("t1"));
        },
        _ => panic!("expected row"),
    }
}

#[test]
fn replace_updates_all_data_fields_and_timestamp() {
    let (e, mut s) = ready_post_store();
    handle_create(&e, &mut s, &user(), &post_payload("a", "b"), "t1");
    let r = handle_replace(&e, &mut s, &user(), 1, &post_payload("x", "y"), "t3");
    assert_eq!(status_code(&r), 200);
    match handle_get_one(&e, &s, &user(), 1) {
        Response::Row(row) => {
            assert_eq!(row[1], text("x"));
            assert_eq!(row[2], text("y"));
            assert_eq!(row[3], text("t1"));
            assert_eq!(row[4], text("t3"));
        },
        _ => panic!("expected row"),
    }
}

#[test]
fn get_without_role_is_forbidden_and_fetches_nothing() {
    let (e, mut s) = ready_post_store();
    handle_create(&e, &mut s, &user(), &post_payload("a", "b"), "t1");
    let r = handle_get_one(&e, &s, &stranger(), 1);
    assert_eq!(status_code(&r), 403);
    assert!(matches!(r, Response::Forbidden));
}

#[test]
fn forbidden_write_leaves_store_untouched() {
    let (e, mut s) = ready_post_store();
    handle_create(&e, &mut s, &user(), &post_payload("a", "b"), "t1");
    let r = handle_create(&e, &mut s, &stranger(), &post_payload("z", "z"), "t2");
    assert_eq!(status_code(&r), 403);
    let d = handle_delete(&e, &mut s, &stranger(), 1);
    assert_eq!(status_code(&d), 403);
    match handle_list(&e, &s, &admin()) {
        Response::Rows(rows) => assert_eq!(rows.len(), 1),
        _ => panic!("expected rows"),
    }
}

#[test]
fn admin_bypasses_the_role_gate() {
    let (e, mut s) = ready_post_store();
    let r = handle_create(&e, &mut s, &admin(), &post_payload("a", "b"), "t1");
    assert_eq!(status_code(&r), 201);
    assert_eq!(status_code(&handle_get_one(&e, &s, &admin(), 1)), 200);
}

#[test]
fn delete_missing_row_is_not_found() {
    let (e, mut s) = ready_post_store();
    handle_create(&e, &mut s, &user(), &post_payload("a", "b"), "t1");
    let r = handle_delete(&e, &mut s, &user(), 999);
    assert_eq!(status_code(&r), 404);
    assert!(matches!(r, Response::NotFound));
}

#[test]
fn delete_existing_row_succeeds() {
    let (e, mut s) = ready_post_store();
    handle_create(&e, &mut s, &user(), &post_payload("a", "b"), "t1");
    assert_eq!(status_code(&handle_delete(&e, &mut s, &user(), 1)), 200);
    assert_eq!(status_code(&handle_get_one(&e, &s, &user(), 1)), 404);
}

#[test]
fn patch_missing_row_is_not_found() {
    let (e, mut s) = ready_post_store();
    let partial = vec![None, Some(text("c")), None, None, None];
    let r = handle_patch(&e, &mut s, &user(), 7, &partial, "t2");
    assert_eq!(status_code(&r), 404);
}

#[test]
fn nested_list_returns_exactly_the_children() {
    let e = comment_entity();
    let mut s = new_store();
    materialize(&mut s);
    let anyone = stranger();
    let payload = |pid: i64, body: &str| vec![Value::Int(0), Value::Int(pid), text(body)];
    handle_create(&e, &mut s, &anyone, &payload(1, "first"), "t");
    handle_create(&e, &mut s, &anyone, &payload(2, "other"), "t");
    handle_create(&e, &mut s, &anyone, &payload(1, "second"), "t");
    match handle_list_children(&e, &s, &anyone, 1) {
        Response::Rows(rows) => {
            assert_eq!(rows.len(), 2);
            assert_eq!(rows[0][2], text("first"));
            assert_eq!(rows[1][2], text("second"));
            assert_eq!(rows[0][1], Value::Int(1));
            assert_eq!(rows[1][1], Value::Int(1));
        },
        _ => panic!("expected rows"),
    }
    match handle_list_children(&e, &s, &anyone, 3) {
        Response::Rows(rows) => assert_eq!(rows.len(), 0),
        _ => panic!("expected rows"),
    }
}

#[test]
fn materialization_is_idempotent() {
    let e = post_entity();
    let mut s = new_store();
    materialize(&mut s);
    materialize(&mut s);
    handle_create(&e, &mut s, &user(), &post_payload("a", "b"), "t1");
    materialize(&mut s);
    match handle_list(&e, &s, &user()) {
        Response::Rows(rows) => assert_eq!(rows.len(), 1),
        _ => panic!("expected rows"),
    }
}

#[test]
fn operations_before_materialization_are_storage_errors() {
    let e = post_entity();
    let mut s = new_store();
    let r = handle_create(&e, &mut s, &user(), &post_payload("a", "b"), "t1");
    assert_eq!(status_code(&r), 500);
    assert_eq!(status_code(&handle_list(&e, &s, &user())), 500);
}

#[test]
fn list_returns_rows_in_insertion_order() {
    let (e, mut s) = ready_post_store();
    handle_create(&e, &mut s, &user(), &post_payload("a", "1"), "t");
    handle_create(&e, &mut s, &user(), &post_payload("b", "2"), "t");
    match handle_list(&e, &s, &user()) {
        Response::Rows(rows) => {
            assert_eq!(rows.len(), 2);
            assert_eq!(rows[0][1], text("a"));
            assert_eq!(rows[1][1], text("b"));
            assert_eq!(rows[0][0], Value::Int(1));
            assert_eq!(rows[1][0], Value::Int(2));
        },
        _ => panic!("expected rows"),
    }
}
