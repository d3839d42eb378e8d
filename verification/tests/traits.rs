use ormada::traits::SoftDeleteConfig;

#[test]
fn test_soft_delete_config_disabled() {
    let config = SoftDeleteConfig::Disabled;
    assert!(!config.is_enabled());
    assert_eq!(config.column(), None);
}

#[test]
fn test_soft_delete_config_enabled() {
    let config = SoftDeleteConfig::Enabled { column: "deleted_at" };
    assert!(config.is_enabled());
    assert_eq!(config.column(), Some("deleted_at"));
}

#[test]
fn test_soft_delete_config_default() {
    let config = SoftDeleteConfig::default();
    assert_eq!(config, SoftDeleteConfig::Disabled);
}

#[test]
fn test_soft_delete_config_is_debug() {
    let config = SoftDeleteConfig::Enabled { column: "deleted_at" };
    let debug_str = format!("{config:?}");
    assert!(debug_str.contains("Enabled"));
    assert!(debug_str.contains("deleted_at"));
}

#[test]
fn test_soft_delete_config_is_clone() {
    let config = SoftDeleteConfig::Enabled { column: "deleted_at" };
    let cloned = config;
    assert_eq!(config, cloned);
}

#[test]
fn test_soft_delete_config_is_copy() {
    let config = SoftDeleteConfig::Enabled { column: "deleted_at" };
    let copied = config;
    let also_copied = config;
    assert_eq!(copied, also_copied);
}

#[test]
fn test_soft_delete_config_pattern_matching() {
    let configs = vec![SoftDeleteConfig::Disabled, SoftDeleteConfig::Enabled { column: "deleted_at" }];

    for config in configs {
        match config {
            SoftDeleteConfig::Disabled => assert!(!config.is_enabled()),
            SoftDeleteConfig::Enabled { column } => {
                assert!(config.is_enabled());
                assert_eq!(column, "deleted_at");
            }
        }
    }
}
