use ormada::django_model::{categorize_django_fields, parse_relations};
use ormada::parser::{AttrInfo, FieldDecl};
use ormada::projection::{is_computed_field, parse_projection_config, projection_columns};

fn list(name: &str, args: &str) -> AttrInfo {
    AttrInfo {
        name: Some(name.to_string()),
        tokens: format!("{} ({})", name, args),
        list_tokens: Some(args.to_string()),
    }
}

fn bare(name: &str) -> AttrInfo {
    AttrInfo { name: Some(name.to_string()), tokens: name.to_string(), list_tokens: None }
}

fn field(name: &str, ty: &str, attrs: Vec<AttrInfo>) -> FieldDecl {
    FieldDecl { name: Some(name.to_string()), ty: ty.to_string(), attrs }
}

#[test]
fn django_fields_by_role() {
    let f = categorize_django_fields(&[
        field("id", "i32", vec![list("sea_orm", "primary_key , auto_increment = true")]),
        field("created_at", "DateTime", vec![list("django", "auto_now_add")]),
        field("updated_at", "DateTime", vec![list("django", "auto_now")]),
        field("title", "String", vec![list("sea_orm", "column_type = \"Text\"")]),
    ])
    .unwrap();
    assert_eq!(f.primary_key, "id");
    assert_eq!(f.auto_now_add, vec!["created_at".to_string()]);
    assert_eq!(f.auto_now, vec!["updated_at".to_string()]);
    assert_eq!(f.all_fields.len(), 4);
    assert_eq!(f.all_fields[3], ("title".to_string(), "String".to_string()));
}

#[test]
fn django_model_needs_primary_key() {
    let e = categorize_django_fields(&[field("name", "String", vec![list("django", "primary_key")])]).unwrap_err();
    assert_eq!(e, "Model must have a field marked with #[sea_orm(primary_key)]");
}

#[test]
fn relations_listed_on_struct() {
    let attrs = vec![
        list("derive", "Clone"),
        list("django", "relations (author = \"super :: author :: Entity\" , tags = \"crate::tag::Entity\")"),
    ];
    let rels = parse_relations(&attrs);
    assert_eq!(rels.len(), 2);
    assert_eq!(rels[0].field_name, "author");
    assert_eq!(rels[0].related_entity, "super::author::Entity");
    assert_eq!(rels[0].foreign_key_field, "author_id");
    assert_eq!(rels[1].foreign_key_field, "tags_id");
}

#[test]
fn relations_stop_at_first_bad_entry() {
    let attrs = vec![list("django", "relations (author = \"a::Entity\" , broken , tags = \"t::Entity\")")];
    let rels = parse_relations(&attrs);
    assert_eq!(rels.len(), 1);
    assert_eq!(rels[0].field_name, "author");
    assert!(parse_relations(&[list("django", "table = \"x\"")]).is_empty());
}

#[test]
fn projection_config() {
    assert_eq!(parse_projection_config("model = super :: user :: Column").unwrap(), "super::user::Column");
    assert_eq!(parse_projection_config("").unwrap_err(), "Missing required 'model' attribute");
    assert_eq!(parse_projection_config("table = x").unwrap_err(), "Unknown attribute: table");
    assert_eq!(parse_projection_config("model = \"x\"").unwrap_err(), "malformed attribute arguments");
}

#[test]
fn projection_selects_non_computed_fields() {
    let cols = projection_columns(&[
        field("id", "i64", vec![]),
        field("user_name", "String", vec![]),
        field("score", "i64", vec![bare("computed")]),
        field("email_address", "String", vec![list("serde", "default")]),
    ]);
    assert_eq!(cols, vec!["Id", "UserName", "EmailAddress"]);
    assert!(is_computed_field(&[bare("computed")]));
    assert!(!is_computed_field(&[list("computed", "x")]));
}
