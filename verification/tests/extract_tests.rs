use rest_compiler::descriptor::{Dialect, ScalarKind};
use rest_compiler::extract::{
    contains_sub, extract, kind_of, parse_reference, AnnotationError, EntityAnnotation,
    FieldAnnotation,
};

fn plain_field(name: &str, declared: &str) -> FieldAnnotation {
    FieldAnnotation {
        name: String::from(name),
        declared_type: String::from(declared),
        foreign_key: None,
        references: None,
        nested_route: None,
    }
}

fn post_annotation() -> EntityAnnotation {
    EntityAnnotation {
        table: String::from("post"),
        id: String::from("id"),
        dialect: Some(String::from("sqlite")),
        read_role: Some(String::from("user")),
        update_role: Some(String::from("user")),
        delete_role: Some(String::from("user")),
        fields: vec![
            plain_field("id", "i64"),
            plain_field("title", "String"),
            plain_field("content", "String"),
            plain_field("created_at", "String"),
            plain_field("updated_at", "String"),
        ],
    }
}

fn comment_annotation() -> EntityAnnotation {
    let mut post_id = plain_field("post_id", "i64");
    post_id.foreign_key = Some(String::from("post_id"));
    post_id.references = Some(String::from("post.id"));
    EntityAnnotation {
        table: String::from("comment"),
        id: String::from("id"),
        dialect: None,
        read_role: None,
        update_role: None,
        delete_role: None,
        fields: vec![plain_field("id", "i64"), post_id, plain_field("body", "String")],
    }
}

#[test]
fn extract_post() {
    let d = extract(&post_annotation()).unwrap();
    assert_eq!(d.table, "post");
    assert_eq!(d.id_field, "id");
    assert!(matches!(d.dialect, Dialect::Sqlite));
    assert_eq!(d.fields.len(), 5);
    assert!(d.fields[0].is_id);
    assert!(matches!(d.fields[0].kind, ScalarKind::Integer));
    assert!(!d.fields[1].is_id && !d.fields[1].is_created && !d.fields[1].is_updated);
    assert!(d.fields[3].is_created);
    assert!(d.fields[4].is_updated);
    assert!(d.relation.is_none());
    assert_eq!(d.roles.read.as_deref(), Some("user"));
}

#[test]
fn extract_comment_relation() {
    let d = extract(&comment_annotation()).unwrap();
    let rel = d.relation.expect("relation");
    assert_eq!(rel.field, "post_id");
    assert_eq!(rel.parent_table, "post");
    assert_eq!(rel.parent_column, "id");
    assert!(rel.nested_route);
}

#[test]
fn unknown_dialect_degrades_to_generic() {
    let mut a = post_annotation();
    a.dialect = Some(String::from("oracle"));
    let d = extract(&a).unwrap();
    assert!(matches!(d.dialect, Dialect::Generic));
}

#[test]
fn missing_dialect_defaults_to_sqlite() {
    let mut a = post_annotation();
    a.dialect = None;
    let d = extract(&a).unwrap();
    assert!(matches!(d.dialect, Dialect::Sqlite));
}

#[test]
fn postgres_and_mysql_dialects() {
    let mut a = post_annotation();
    a.dialect = Some(String::from("postgres"));
    assert!(matches!(extract(&a).unwrap().dialect, Dialect::Postgres));
    a.dialect = Some(String::from("mysql"));
    assert!(matches!(extract(&a).unwrap().dialect, Dialect::Mysql));
}

#[test]
fn kind_mapping_from_declared_types() {
    assert!(matches!(kind_of("i64"), ScalarKind::Integer));
    assert!(matches!(kind_of("Option<i32>"), ScalarKind::Integer));
    assert!(matches!(kind_of("f64"), ScalarKind::Real));
    assert!(matches!(kind_of("Vec<f32>"), ScalarKind::Real));
    assert!(matches!(kind_of("String"), ScalarKind::Text));
    assert!(matches!(kind_of("bool"), ScalarKind::Text));
}

#[test]
fn substring_search() {
    assert!(contains_sub("Option<i64>", "i64"));
    assert!(!contains_sub("Option<u64>", "i64"));
    assert!(contains_sub("abc", ""));
    assert!(!contains_sub("ab", "abc"));
}

#[test]
fn reference_parsing() {
    assert_eq!(parse_reference("post.id"), Some((String::from("post"), String::from("id"))));
    assert_eq!(parse_reference("postid"), None);
    assert_eq!(parse_reference("post.id.extra"), None);
    assert_eq!(parse_reference(".id"), None);
    assert_eq!(parse_reference("post."), None);
}

#[test]
fn error_invalid_table_name() {
    let mut a = post_annotation();
    a.table = String::from("Post");
    assert_eq!(extract(&a).unwrap_err(), AnnotationError::InvalidTableName);
    a.table = String::from("9table");
    assert_eq!(extract(&a).unwrap_err(), AnnotationError::InvalidTableName);
    a.table = String::from("");
    assert_eq!(extract(&a).unwrap_err(), AnnotationError::InvalidTableName);
}

#[test]
fn error_invalid_field_name() {
    let mut a = post_annotation();
    a.fields[1].name = String::from("bad name");
    assert_eq!(extract(&a).unwrap_err(), AnnotationError::InvalidFieldName);
}

#[test]
fn error_duplicate_field_name() {
    let mut a = post_annotation();
    a.fields[2].name = String::from("title");
    assert_eq!(extract(&a).unwrap_err(), AnnotationError::DuplicateFieldName);
}

#[test]
fn error_missing_id_field() {
    let mut a = post_annotation();
    a.id = String::from("key");
    assert_eq!(extract(&a).unwrap_err(), AnnotationError::MissingIdField);
}

#[test]
fn error_invalid_id_field() {
    let mut a = post_annotation();
    a.id = String::from("updated_at");
    assert_eq!(extract(&a).unwrap_err(), AnnotationError::InvalidIdField);
}

#[test]
fn error_invalid_reference() {
    let mut a = comment_annotation();
    a.fields[1].references = Some(String::from("postid"));
    assert_eq!(extract(&a).unwrap_err(), AnnotationError::InvalidReference);
}

#[test]
fn error_multiple_relations() {
    let mut a = comment_annotation();
    let mut extra = plain_field("thread_id", "i64");
    extra.foreign_key = Some(String::from("thread_id"));
    extra.references = Some(String::from("thread.id"));
    a.fields.push(extra);
    assert_eq!(extract(&a).unwrap_err(), AnnotationError::MultipleRelations);
}

#[test]
fn error_relation_field_not_integer() {
    let mut a = comment_annotation();
    a.fields[1].declared_type = String::from("String");
    assert_eq!(extract(&a).unwrap_err(), AnnotationError::InvalidRelationField);
}

#[test]
fn incomplete_relation_is_disabled() {
    let mut a = comment_annotation();
    a.fields[1].references = None;
    let d = extract(&a).unwrap();
    assert!(d.relation.is_none());
    let mut b = comment_annotation();
    b.fields[1].foreign_key = None;
    assert!(extract(&b).unwrap().relation.is_none());
}

#[test]
fn nested_route_option_disables_route() {
    let mut a = comment_annotation();
    a.fields[1].nested_route = Some(false);
    let d = extract(&a).unwrap();
    assert!(!d.relation.unwrap().nested_route);
}
