use pawdesk::config::{
    clamp_interval_minutes, default_interval, default_true, migrate_schema, ConfigRepository,
    DebouncedSaver, ReminderConfig, WindowConfig, SCHEMA_VERSION,
};
use pawdesk::error::AppError;
use std::path::PathBuf;

#[test]
fn clamp_interval_bounds() {
    assert_eq!(clamp_interval_minutes(1), 15);
    assert_eq!(clamp_interval_minutes(60), 60);
    assert_eq!(clamp_interval_minutes(999), 180);
}

#[test]
fn reminder_config_defaults_and_sanitize() {
    let mut c = ReminderConfig::default();
    assert!(c.enabled);
    assert_eq!(c.interval_minutes, 60);
    assert!(!c.paused);
    assert!(c.custom_messages.is_empty());
    assert!(c.last_completed_at.is_none());
    c.interval_minutes = 5;
    c.custom_messages.push("hi".into());
    c.sanitize();
    assert_eq!(c.interval_minutes, 15);
    assert_eq!(c.custom_messages, vec!["hi".to_string()]);
    assert!(default_true());
    assert_eq!(default_interval(), 60);
    let w = WindowConfig::default();
    assert!(w.x.is_none() && w.y.is_none() && w.monitor_hint.is_none());
}

#[test]
fn migrate_schema_versions() {
    assert_eq!(migrate_schema(0), (SCHEMA_VERSION, true));
    assert_eq!(migrate_schema(1), (3, true));
    assert_eq!(migrate_schema(2), (3, true));
    assert_eq!(migrate_schema(3), (3, false));
    assert_eq!(migrate_schema(7), (7, false));
}

#[test]
fn debounced_saver_waits_for_quiet() {
    let repo = ConfigRepository::with_paths(PathBuf::from("a/config.json"), PathBuf::from("a/b.bak"));
    assert_eq!(repo.config_path(), std::path::Path::new("a/config.json"));
    assert_eq!(repo.backup_path(), std::path::Path::new("a/b.bak"));
    let mut s = DebouncedSaver::new(repo);
    assert!(!s.save_due(10_000_000_000));
    s.mark_dirty(1_000_000_000);
    assert!(!s.save_due(1_499_999_999));
    assert!(s.save_due(1_500_000_000));
    s.mark_dirty(1_400_000_000);
    assert!(!s.save_due(1_500_000_000));
    assert!(s.save_due(1_900_000_000));
    s.mark_saved();
    assert!(!s.save_due(9_000_000_000));
    assert_eq!(s.repository().config_path(), std::path::Path::new("a/config.json"));
}

#[test]
fn user_messages_per_error_kind() {
    assert_eq!(AppError::Config("x".into()).user_message(), "配置读写失败，请检查应用数据目录。");
    assert_eq!(AppError::Shortcut("x".into()).user_message(), "快捷方式操作失败。");
    assert_eq!(AppError::Other("自定义".into()).user_message(), "自定义");
    let io = AppError::from_io(std::io::Error::new(std::io::ErrorKind::Other, "boom"));
    assert_eq!(io.user_message(), "文件读写失败。");
    match io {
        AppError::Io { path, .. } => assert_eq!(path, PathBuf::from("<unknown>")),
        _ => panic!("expected an I/O error"),
    }
}

#[test]
fn repository_paths_are_the_ones_given() {
    let repo = pawdesk::config::ConfigRepository::with_paths("cfg/config.json".into(), "cfg/backups/config.json.bak".into());
    assert_eq!(repo.config_path(), std::path::Path::new("cfg/config.json"));
    assert_eq!(repo.backup_path(), std::path::Path::new("cfg/backups/config.json.bak"));
}
