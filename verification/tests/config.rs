use vsysmonitor::config::{
    join_path, AppConfig, KeyBindings, PathError, RawAppConfig, RawKeyBindings, RawSshConfig,
    SshConfig, ThemeName,
};

#[test]
fn defaults_match_documented_values() {
    let c = AppConfig::default();
    assert_eq!(c.local_refresh_interval_ms, 2_000);
    assert_eq!(c.remote_refresh_interval_ms, 15_000);
    assert_eq!(c.theme, ThemeName::CatppuccinMocha);
    assert!(c.show_borders);
    assert!(!c.compact_mode);
    assert!(c.show_help_hints);
    assert_eq!(c.default_page_size, 3);
    assert_eq!(c.stale_data_timeout_ms, 20_000);
    assert!(c.show_all_disks);
    assert_eq!(c.disk_include_mountpoints, vec!["/".to_string()]);
    assert_eq!(c.disk_exclude_mountpoints, vec!["/boot".to_string()]);
    assert_eq!(c.keys.next_page, "l");
    assert_eq!(c.keys.prev_page, "h");
    assert_eq!(c.keys.refresh, "r");
    assert_eq!(c.keys.quit, "q");
    assert_eq!(c.keys.help, "?");
    assert_eq!(c.ssh.config_path, "~/.ssh/config");
    assert_eq!(c.ssh.ssh_connect_timeout_ms, 5_000);
    assert_eq!(c.ssh.host_ping_timeout_ms, 1_000);
    assert!(c.ssh.unreachable_to_end);
    assert!(c.ssh.prefer_ssh_over_ping_check);
    assert_eq!(c.ssh.max_parallel_hosts, 8);
}

#[test]
fn key_and_ssh_defaults_on_their_own() {
    let k = KeyBindings::default();
    assert_eq!((k.next_page.as_str(), k.prev_page.as_str()), ("l", "h"));
    let s = SshConfig::default();
    assert_eq!(s.max_parallel_hosts, 8);
    assert_eq!(s.config_path, "~/.ssh/config");
}

#[test]
fn theme_name_is_written_in_snake_case() {
    assert_eq!(ThemeName::CatppuccinMocha.as_str(), "catppuccin_mocha");
}

#[test]
fn empty_file_keeps_defaults() {
    let merged = RawAppConfig::default().merge(AppConfig::default());
    let d = AppConfig::default();
    assert_eq!(merged.local_refresh_interval_ms, d.local_refresh_interval_ms);
    assert_eq!(merged.remote_refresh_interval_ms, d.remote_refresh_interval_ms);
    assert_eq!(merged.default_page_size, d.default_page_size);
    assert_eq!(merged.keys.quit, d.keys.quit);
    assert_eq!(merged.ssh.max_parallel_hosts, d.ssh.max_parallel_hosts);
    assert_eq!(merged.disk_include_mountpoints, d.disk_include_mountpoints);
}

#[test]
fn legacy_interval_sets_both_unless_named() {
    let raw = RawAppConfig {
        refresh_interval_ms: Some(7_000),
        ..RawAppConfig::default()
    };
    let c = raw.merge(AppConfig::default());
    assert_eq!(c.local_refresh_interval_ms, 7_000);
    assert_eq!(c.remote_refresh_interval_ms, 7_000);

    let raw = RawAppConfig {
        refresh_interval_ms: Some(7_000),
        local_refresh_interval_ms: Some(1_000),
        ..RawAppConfig::default()
    };
    let c = raw.merge(AppConfig::default());
    assert_eq!(c.local_refresh_interval_ms, 1_000);
    assert_eq!(c.remote_refresh_interval_ms, 7_000);
}

#[test]
fn zero_sizes_become_one() {
    let raw = RawAppConfig {
        default_page_size: Some(0),
        ssh: Some(RawSshConfig {
            max_parallel_hosts: Some(0),
            ..RawSshConfig::default()
        }),
        ..RawAppConfig::default()
    };
    let c = raw.merge(AppConfig::default());
    assert_eq!(c.default_page_size, 1);
    assert_eq!(c.ssh.max_parallel_hosts, 1);
}

#[test]
fn given_values_override_defaults() {
    let raw = RawAppConfig {
        show_borders: Some(false),
        compact_mode: Some(true),
        stale_data_timeout_ms: Some(1),
        disk_exclude_mountpoints: Some(vec![]),
        keys: Some(RawKeyBindings {
            quit: Some("x".to_string()),
            ..RawKeyBindings::default()
        }),
        ssh: Some(RawSshConfig {
            config_path: Some("/etc/ssh/cfg".to_string()),
            unreachable_to_end: Some(false),
            ..RawSshConfig::default()
        }),
        ..RawAppConfig::default()
    };
    let c = raw.merge(AppConfig::default());
    assert!(!c.show_borders);
    assert!(c.compact_mode);
    assert_eq!(c.stale_data_timeout_ms, 1);
    assert!(c.disk_exclude_mountpoints.is_empty());
    assert_eq!(c.keys.quit, "x");
    assert_eq!(c.keys.help, "?");
    assert_eq!(c.ssh.config_path, "/etc/ssh/cfg");
    assert!(!c.ssh.unreachable_to_end);
    assert_eq!(c.ssh.ssh_connect_timeout_ms, 5_000);
}

#[test]
fn config_path_prefers_xdg_then_home() {
    assert_eq!(
        AppConfig::config_path(Some("/x"), Some("/home/u")).unwrap(),
        "/x/vsysmonitor/config.toml"
    );
    assert_eq!(
        AppConfig::config_path(None, Some("/home/u")).unwrap(),
        "/home/u/.config/vsysmonitor/config.toml"
    );
    assert_eq!(
        AppConfig::config_path(None, None).unwrap_err(),
        PathError::NoConfigHome
    );
    assert_eq!(
        PathError::NoConfigHome.message(),
        "HOME is not set and XDG_CONFIG_HOME is unavailable"
    );
    assert_eq!(PathError::NoHome.message(), "HOME is not set");
}

#[test]
fn join_path_follows_unix_rules() {
    assert_eq!(join_path("/a", "b"), "/a/b");
    assert_eq!(join_path("/a/", "b"), "/a/b");
    assert_eq!(join_path("", "b"), "b");
    assert_eq!(join_path("/a", "/b"), "/b");
    assert_eq!(
        join_path("/a", "b"),
        std::path::Path::new("/a").join("b").to_str().unwrap()
    );
}
