use ormada::codegen_plan::{
    column_constants, default_ordering, m2m_accessor, plan_create, plan_with_relations, Assign, ValidationRule,
};
use ormada::model_def::{plan_model, ManyToManyConfig};
use ormada::parser::{AttrInfo, FieldDecl};

fn bare(name: &str) -> AttrInfo {
    AttrInfo { name: Some(name.to_string()), tokens: name.to_string(), list_tokens: None }
}

fn list(name: &str, args: &str) -> AttrInfo {
    AttrInfo { name: Some(name.to_string()), tokens: format!("{} ({})", name, args), list_tokens: Some(args.to_string()) }
}

fn field(name: &str, ty: &str, attrs: Vec<AttrInfo>) -> FieldDecl {
    FieldDecl { name: Some(name.to_string()), ty: ty.to_string(), attrs }
}

fn sample() -> Vec<FieldDecl> {
    vec![
        field("id", "i64", vec![bare("primary_key")]),
        field("title", "String", vec![list("max_length", "200"), list("min_length", "3")]),
        field("pages", "i32", vec![list("range", "min = 1, max = 5000")]),
        field("author_id", "i64", vec![list("foreign_key", "Author")]),
        field("editor_id", "Option < i64 >", vec![list("foreign_key", "User, on_delete = SetNull")]),
        field("tags", "Vec < Tag >", vec![list("many_to_many", "Tag, through = BookTag")]),
        field("created_at", "DateTime", vec![bare("auto_now_add")]),
    ]
}

#[test]
fn create_plan_validations_and_assignments() {
    let plan = plan_model(&sample()).unwrap();
    let (rules, assigns) = plan_create(&plan.fields);
    assert_eq!(
        rules,
        vec![
            ValidationRule::MaxLen("title".to_string(), 200),
            ValidationRule::MinLen("title".to_string(), 3),
            ValidationRule::RangeMin("pages".to_string(), 1),
            ValidationRule::RangeMax("pages".to_string(), 5000),
            ValidationRule::RequiredFk("author_id".to_string()),
        ]
    );
    let kinds: Vec<(String, Assign)> = assigns;
    assert_eq!(kinds.len(), 6);
    assert_eq!(kinds[0], ("id".to_string(), Assign::NotSet));
    assert_eq!(kinds[1].1, Assign::SetValue);
    assert_eq!(kinds[5], ("created_at".to_string(), Assign::SetNow));
}

#[test]
fn uuid_primary_key_is_cloned() {
    let plan = plan_model(&[field("id", "Uuid", vec![list("primary_key", "auto_increment = false")])]).unwrap();
    let (_, assigns) = plan_create(&plan.fields);
    assert_eq!(assigns, vec![("id".to_string(), Assign::SetClone)]);
}

#[test]
fn relation_slots_strip_id_suffix() {
    let plan = plan_model(&sample()).unwrap();
    let slots = plan_with_relations(&plan.fields);
    assert_eq!(slots.len(), 2);
    assert_eq!(slots[0].name, "author");
    assert_eq!(slots[0].entity, "super::super::author::_internal::Entity");
    assert!(!slots[0].nullable);
    assert_eq!(slots[1].name, "editor");
    assert!(slots[1].nullable);
}

#[test]
fn column_constants_skip_ignored_fields() {
    let fields = vec![
        field("id", "i64", vec![]),
        field("user_name", "String", vec![]),
        field("cache", "String", vec![list("sea_orm", "ignore")]),
    ];
    assert_eq!(column_constants(&fields), vec!["Id", "UserName"]);
}

#[test]
fn default_ordering_direction_and_column() {
    assert_eq!(default_ordering("-created_at"), (true, "CreatedAt".to_string()));
    assert_eq!(default_ordering("title"), (false, "Title".to_string()));
}

#[test]
fn many_to_many_accessor_paths() {
    let c = ManyToManyConfig {
        entity: "super::tag::_internal::Entity".to_string(),
        through: "super::book_tag::_internal::Entity".to_string(),
    };
    let a = m2m_accessor("tags", &c);
    assert_eq!(a.method, "get_tags");
    assert_eq!(a.related_module, "tag");
    assert_eq!(a.through_module, "book_tag");
    assert_eq!(a.related_model, "super::tag::Model");
    let d = ManyToManyConfig { entity: "Tag".to_string(), through: "_internal::Entity".to_string() };
    let b = m2m_accessor("x", &d);
    assert_eq!(b.related_module, "related");
    assert_eq!(b.through_module, "through");
    assert_eq!(b.related_model, "Tag::Model");
}

#[test]
fn validation_rules_give_the_generated_messages() {
    let fk = ValidationRule::RequiredFk("author_id".to_string());
    assert_eq!(fk.failure(false, 0, 0), None);
    assert!(fk.failure(true, 0, 0).unwrap().starts_with("foreign key cannot be the default value"));
    let max = ValidationRule::MaxLen("title".to_string(), 5);
    assert_eq!(max.failure(false, 5, 0), None);
    assert_eq!(max.failure(false, 6, 0), Some("exceeds max_length of 5".to_string()));
    let min = ValidationRule::MinLen("title".to_string(), 3);
    assert_eq!(min.failure(false, 2, 0), Some("is shorter than min_length of 3".to_string()));
    assert_eq!(min.failure(false, 3, 0), None);
    let lo = ValidationRule::RangeMin("age".to_string(), -5);
    assert_eq!(lo.failure(false, 0, -6), Some("value -6 is less than minimum -5".to_string()));
    assert_eq!(lo.failure(false, 0, -5), None);
    let hi = ValidationRule::RangeMax("age".to_string(), 100);
    assert_eq!(hi.failure(false, 0, 101), Some("value 101 exceeds maximum 100".to_string()));
    assert_eq!(hi.failure(false, 0, i64::MIN), None);
    let zero = ValidationRule::RangeMin("n".to_string(), 0);
    assert_eq!(
        zero.failure(false, 0, i64::MIN),
        Some("value -9223372036854775808 is less than minimum 0".to_string())
    );
}
