use ormada::types::OnDelete;

#[test]
fn test_on_delete_to_sql() {
    assert_eq!(OnDelete::Cascade.to_sql(), "CASCADE");
    assert_eq!(OnDelete::SetNull.to_sql(), "SET NULL");
    assert_eq!(OnDelete::Restrict.to_sql(), "RESTRICT");
    assert_eq!(OnDelete::SetDefault.to_sql(), "SET DEFAULT");
    assert_eq!(OnDelete::NoAction.to_sql(), "NO ACTION");
}

#[test]
fn test_requires_nullable() {
    assert!(OnDelete::SetNull.requires_nullable());
    assert!(!OnDelete::Cascade.requires_nullable());
    assert!(!OnDelete::Restrict.requires_nullable());
    assert!(!OnDelete::SetDefault.requires_nullable());
    assert!(!OnDelete::NoAction.requires_nullable());
}

#[test]
fn test_display() {
    assert_eq!(OnDelete::Cascade.display(), "CASCADE");
    assert_eq!(OnDelete::SetNull.display(), "SET NULL");
}

#[test]
fn test_enum_properties() {
    let on_delete = OnDelete::Cascade;
    let copy = on_delete;
    let clone = on_delete;
    assert_eq!(copy, clone);

    assert_eq!(OnDelete::Cascade, OnDelete::Cascade);
    assert_ne!(OnDelete::Cascade, OnDelete::SetNull);
}
