use ormada::migration::{parse_data_migration_config, parse_schema_config, parse_schema_field_attrs};
use ormada::model_def::{parse_field_attributes, parse_model_config, plan_model, strip_django_attributes};
use ormada::parser::{AttrInfo, FieldDecl};

fn bare(name: &str) -> AttrInfo {
    AttrInfo { name: Some(name.to_string()), tokens: name.to_string(), list_tokens: None }
}

fn list(name: &str, args: &str) -> AttrInfo {
    AttrInfo {
        name: Some(name.to_string()),
        tokens: format!("{} ({})", name, args),
        list_tokens: Some(args.to_string()),
    }
}

fn field(name: &str, ty: &str, attrs: Vec<AttrInfo>) -> FieldDecl {
    FieldDecl { name: Some(name.to_string()), ty: ty.to_string(), attrs }
}

#[test]
fn test_parse_schema_config() {
    let config = parse_schema_config("table = \"books\" , migration = \"001_initial\"").unwrap();
    assert_eq!(config.table_name, "books");
    assert_eq!(config.migration_id, Some("001_initial".to_string()));
}

#[test]
fn test_parse_schema_config_with_extends() {
    let config =
        parse_schema_config("table = \"books\" , migration = \"002\" , after = \"001\" , extends = Book")
            .unwrap();
    assert_eq!(config.table_name, "books");
    assert_eq!(config.migration_id, Some("002".to_string()));
    assert_eq!(config.after, Some("001".to_string()));
    assert_eq!(config.extends, Some("Book".to_string()));
}

#[test]
fn schema_config_defaults_to_migrate_and_reads_flag() {
    assert!(parse_schema_config("table = \"books\"").unwrap().migrate);
    assert!(!parse_schema_config("table = \"books\", migrate = false,").unwrap().migrate);
}

#[test]
fn schema_config_errors() {
    assert_eq!(parse_schema_config("migration = \"001\"").unwrap_err(), "Missing required 'table' attribute");
    assert_eq!(parse_schema_config("table = \"\"").unwrap_err(), "Missing required 'table' attribute");
    assert_eq!(parse_schema_config("table = \"t\", colour = \"red\"").unwrap_err(), "Unknown attribute: colour");
    assert_eq!(parse_schema_config("table = books").unwrap_err(), "malformed attribute arguments");
    assert_eq!(parse_schema_config("table = \"t\",, migrate = true").unwrap_err(), "malformed attribute arguments");
}

#[test]
fn data_migration_config() {
    let c = parse_data_migration_config("migration = \"003_seed\" , after = \"002\"").unwrap();
    assert_eq!(c.migration_id, "003_seed");
    assert_eq!(c.after, Some("002".to_string()));
    assert_eq!(parse_data_migration_config("after = \"002\"").unwrap_err(), "Missing required 'migration' attribute");
    assert_eq!(parse_data_migration_config("migration = \"3\", table = \"x\"").unwrap_err(), "Unknown attribute: table");
}

#[test]
fn model_config() {
    let c = parse_model_config("table = \"users\" , ordering = \"-created_at\" , hooks = true").unwrap();
    assert_eq!(c.table_name, "users");
    assert_eq!(c.ordering, Some("-created_at".to_string()));
    assert!(c.hooks);
    let d = parse_model_config("table = \"posts\"").unwrap();
    assert_eq!(d.ordering, None);
    assert!(!d.hooks);
    assert_eq!(parse_model_config("ordering = \"id\"").unwrap_err(), "Missing required 'table' attribute");
    assert_eq!(parse_model_config("table = \"t\", bogus = 1").unwrap_err(), "Unknown attribute: bogus");
    assert_eq!(parse_model_config("table").unwrap_err(), "malformed attribute arguments");
}

#[test]
fn bare_field_flags() {
    let c = parse_field_attributes(&[
        bare("primary_key"),
        bare("index"),
        bare("auto_now_add"),
        bare("soft_delete"),
        bare("skip_serializing"),
    ])
    .unwrap();
    assert!(c.is_primary_key);
    assert_eq!(c.index, Some(None));
    assert!(c.auto_now_add && !c.auto_now);
    assert!(c.soft_delete && c.skip_serializing && !c.skip_deserializing);
    assert_eq!(c.unique, None);
}

#[test]
fn other_attributes_change_nothing() {
    let doc = AttrInfo { name: Some("doc".to_string()), tokens: "doc = \"x\"".to_string(), list_tokens: None };
    let serde = list("serde", "rename = \"x\",, skip");
    let c = parse_field_attributes(&[doc, serde]).unwrap();
    assert!(!c.is_primary_key);
    assert!(c.foreign_key.is_none());
}

#[test]
fn primary_key_with_auto_increment() {
    let c = parse_field_attributes(&[list("primary_key", "auto_increment = false")]).unwrap();
    assert!(c.is_primary_key);
    assert_eq!(c.auto_increment, Some(false));
    assert!(parse_field_attributes(&[list("primary_key", "auto_increment")]).is_err());
    assert!(parse_field_attributes(&[list("primary_key", "seed = 3")]).is_err());
}

#[test]
fn foreign_key_points_to_sibling_entity() {
    let c = parse_field_attributes(&[list("foreign_key", "BlogPost , on_delete = Cascade")]).unwrap();
    let fk = c.foreign_key.unwrap();
    assert_eq!(fk.entity, "super::super::blog_post::_internal::Entity");
    assert_eq!(fk.on_delete, Some("Cascade".to_string()));
    assert_eq!(fk.default, None);
    let d = parse_field_attributes(&[list("foreign_key", "crate :: models :: Author , default = 1")]).unwrap();
    let fk = d.foreign_key.unwrap();
    assert_eq!(fk.entity, "super::super::author::_internal::Entity");
    assert_eq!(fk.default, Some("1".to_string()));
}

#[test]
fn relation_errors() {
    assert_eq!(
        parse_field_attributes(&[list("foreign_key", "")]).unwrap_err(),
        "foreign_key requires a Model type"
    );
    assert_eq!(
        parse_field_attributes(&[list("one_to_one", "")]).unwrap_err(),
        "one_to_one requires a Model type"
    );
    assert_eq!(
        parse_field_attributes(&[list("many_to_many", "Tag")]).unwrap_err(),
        "many_to_many requires 'through = JoinModel'"
    );
    assert_eq!(
        parse_field_attributes(&[list("foreign_key", "on_delete = Cascade")]).unwrap_err(),
        "malformed attribute arguments"
    );
    assert_eq!(
        parse_field_attributes(&[list("one_to_one", "User, default = 3")]).unwrap_err(),
        "malformed attribute arguments"
    );
}

#[test]
fn many_to_many_entities() {
    let c = parse_field_attributes(&[list("many_to_many", "Tag , through = ArticleTag")]).unwrap();
    let m = c.many_to_many.unwrap();
    assert_eq!(m.entity, "super::tag::_internal::Entity");
    assert_eq!(m.through, "super::article_tag::_internal::Entity");
    let d = parse_field_attributes(&[list("many_to_many", "super :: tag :: Tag , through = super :: at :: ArticleTag")])
        .unwrap();
    let m = d.many_to_many.unwrap();
    assert_eq!(m.entity, "super::tag::Tag::_internal::Entity");
    assert_eq!(m.through, "super::at::ArticleTag::_internal::Entity");
}

#[test]
fn lengths_ranges_and_index_names() {
    let c = parse_field_attributes(&[
        list("max_length", "50"),
        list("min_length", "3"),
        list("range", "min = - 5 , max = 100"),
        list("index", "name = \"idx_title\""),
        list("unique", ""),
    ])
    .unwrap();
    assert_eq!(c.max_length, Some(50));
    assert_eq!(c.min_length, Some(3));
    assert_eq!(c.range_min, Some(-5));
    assert_eq!(c.range_max, Some(100));
    assert_eq!(c.index, Some(Some("idx_title".to_string())));
    assert_eq!(c.unique, Some(None));
    assert_eq!(parse_field_attributes(&[list("max_length", "\"fifty\"")]).unwrap().max_length, None);
    assert!(parse_field_attributes(&[list("max_length", "-1")]).is_err());
    assert!(parse_field_attributes(&[list("max_length", "5, 6")]).is_err());
    assert!(parse_field_attributes(&[list("range", "min = 99999999999999999999")]).is_err());
}

#[test]
fn plan_collects_keys_relations_and_columns() {
    let plan = plan_model(&[
        field("id", "i64", vec![bare("primary_key")]),
        field("author_id", "i64", vec![list("foreign_key", "Author, on_delete = Cascade")]),
        field("profile_id", "i64", vec![list("one_to_one", "Profile")]),
        field("tags", "Vec < Tag >", vec![list("many_to_many", "Tag, through = PostTag")]),
        field("deleted_at", "Option < DateTime >", vec![bare("soft_delete")]),
    ])
    .unwrap();
    assert_eq!(plan.primary_keys, vec!["id".to_string()]);
    assert_eq!(plan.columns, vec!["id", "author_id", "profile_id", "deleted_at"]);
    assert_eq!(plan.foreign_keys.len(), 2);
    assert_eq!(plan.foreign_keys[1].0, "profile_id");
    assert_eq!(plan.foreign_keys[1].1.entity, "super::super::profile::_internal::Entity");
    assert_eq!(plan.one_to_one.len(), 1);
    assert_eq!(plan.many_to_many[0].0, "tags");
    assert_eq!(plan.soft_delete_field, Some("deleted_at".to_string()));
    assert_eq!(plan.fields.len(), 5);
}

#[test]
fn plan_errors() {
    assert_eq!(
        plan_model(&[field("name", "String", vec![])]).unwrap_err(),
        "Model must have at least one field marked with #[primary_key]"
    );
    assert_eq!(
        plan_model(&[
            field("id", "i64", vec![bare("primary_key")]),
            field("a", "bool", vec![bare("soft_delete")]),
            field("b", "bool", vec![bare("soft_delete")]),
        ])
        .unwrap_err(),
        "Only one field can be marked with #[soft_delete]"
    );
    assert_eq!(
        plan_model(&[
            field("id", "i64", vec![bare("primary_key")]),
            field("owner_id", "i64", vec![list("foreign_key", "User, on_delete = SetNull")]),
        ])
        .unwrap_err(),
        "on_delete = SetNull requires field type to be Option<T>"
    );
    assert!(plan_model(&[
        field("id", "i64", vec![bare("primary_key")]),
        field("owner_id", "Option < i64 >", vec![list("foreign_key", "User, on_delete = SetNull")]),
    ])
    .is_ok());
    let unnamed = FieldDecl { name: None, ty: "i64".to_string(), attrs: vec![] };
    assert_eq!(plan_model(&[unnamed]).unwrap_err(), "Field must have a name");
}

#[test]
fn stripped_attributes_keep_other_tools_and_add_sea_orm() {
    let attrs = vec![
        list("primary_key", "auto_increment = false"),
        AttrInfo { name: Some("doc".to_string()), tokens: "doc = \" id\"".to_string(), list_tokens: None },
        bare("index"),
        list("serde", "rename = \"ID\""),
    ];
    let config = parse_field_attributes(&attrs).unwrap();
    let out = strip_django_attributes(&attrs, &config);
    let names: Vec<Option<String>> = out.iter().map(|a| a.name.clone()).collect();
    assert_eq!(
        names,
        vec![Some("doc".to_string()), Some("serde".to_string()), Some("sea_orm".to_string()), Some("sea_orm".to_string())]
    );
    assert_eq!(out[2].list_tokens, Some("primary_key, auto_increment = false".to_string()));
    assert_eq!(out[3].list_tokens, Some("indexed".to_string()));
    let plain = parse_field_attributes(&[bare("primary_key"), bare("unique")]).unwrap();
    let out = strip_django_attributes(&[bare("primary_key"), bare("unique")], &plain);
    assert_eq!(out.len(), 2);
    assert_eq!(out[0].tokens, "sea_orm (primary_key)");
    assert_eq!(out[1].list_tokens, Some("unique".to_string()));
}

#[test]
fn schema_field_marks() {
    let c = parse_schema_field_attrs(&[bare("primary_key"), list("max_length", "100"), bare("drop"), bare("other")]);
    assert!(c.primary_key && c.has_max_length && c.is_drop);
    assert!(!c.foreign_key && !c.nullable && !c.is_rename && !c.has_default);
}

#[test]
fn integer_literals_take_underscores_and_type_suffixes() {
    let c = parse_field_attributes(&[
        list("max_length", "1_000"),
        list("min_length", "2usize"),
        list("range", "min = - 1_5i64 , max = 200u32"),
    ])
    .unwrap();
    assert_eq!(c.max_length, Some(1000));
    assert_eq!(c.min_length, Some(2));
    assert_eq!(c.range_min, Some(-15));
    assert_eq!(c.range_max, Some(200));
    assert!(parse_field_attributes(&[list("max_length", "_10")]).is_err());
}

#[test]
fn string_literals_decode_escapes_and_keep_commas() {
    let c = parse_field_attributes(&[list("index", "name = \"idx_a,b\"")]).unwrap();
    assert_eq!(c.index, Some(Some("idx_a,b".to_string())));
    let c = parse_field_attributes(&[list("index", "name = \"say \\\"hi\\\"\\n\"")]).unwrap();
    assert_eq!(c.index, Some(Some("say \"hi\"\n".to_string())));
    assert!(parse_field_attributes(&[list("index", "name = \"bad \\q\"")]).is_err());
}
