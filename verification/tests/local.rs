use vsysmonitor::config::AppConfig;
use vsysmonitor::local::{disk_used_bytes, local_descriptor, LocalCollector};
use vsysmonitor::model::HostType;

#[test]
fn default_selection_keeps_all_but_boot() {
    let sel = LocalCollector::new(&AppConfig::default(), None);
    assert!(sel.show_all_disks);
    assert!(sel.should_keep_disk("/"));
    assert!(sel.should_keep_disk("/home"));
    assert!(!sel.should_keep_disk("/boot"));
}

#[test]
fn include_list_applies_when_not_showing_all() {
    let mut config = AppConfig::default();
    config.show_all_disks = false;
    config.disk_include_mountpoints = vec!["/".to_string(), "/data".to_string()];
    config.disk_exclude_mountpoints = vec!["/data".to_string()];
    let sel = LocalCollector::new(&config, Some("box".to_string()));
    assert!(sel.should_keep_disk("/"));
    assert!(!sel.should_keep_disk("/data"));
    assert!(!sel.should_keep_disk("/home"));
    assert!(!sel.should_keep_disk("/boot"));
}

#[test]
fn used_bytes_saturate() {
    assert_eq!(disk_used_bytes(100, 40), 60);
    assert_eq!(disk_used_bytes(40, 100), 0);
    assert_eq!(disk_used_bytes(u64::MAX, 0), u64::MAX);
}

#[test]
fn local_host_is_named_after_machine() {
    let d = local_descriptor(Some("box".to_string()));
    assert_eq!(d.id, "local");
    assert_eq!(d.alias, "local");
    assert_eq!(d.display_name, "box");
    assert_eq!(d.host_type, HostType::Local);
    assert_eq!(local_descriptor(None).display_name, "localhost");
    let c = LocalCollector::new(&AppConfig::default(), Some("box".to_string()));
    let d = c.descriptor();
    assert_eq!((d.id.as_str(), d.display_name.as_str()), ("local", "box"));
    assert_eq!(d.host_type, HostType::Local);
}
