use vsysmonitor::config::KeyBindings;
use vsysmonitor::model::{DockerContainerInfo, HostStatus, HostType};
use vsysmonitor::theme::{Palette, Severity};
use vsysmonitor::config::ThemeName;
use vsysmonitor::ui::{
    cpu_gauge_severity, disk_label, disk_mount_suffix, disk_widget_height, docker_column_widths,
    docker_container_cells, docker_container_is_problem, docker_header_cells,
    docker_status_color, docker_widget_lines, fallback_text, footer_hints, format_bytes,
    format_timestamp, header_position, help_lines, host_column_title, host_has_problem_docker,
    host_list_detail_color, host_list_item_lines, host_list_name_color, host_list_window,
    host_status_label, host_type_label, is_stale, offline_summary, pad_or_truncate,
    status_border_color, truncate_text,
};

fn container(image: &str, created: &str, status: &str) -> DockerContainerInfo {
    DockerContainerInfo {
        image: image.to_string(),
        created: created.to_string(),
        status: status.to_string(),
    }
}

fn mocha() -> Palette {
    Palette::from_theme(&ThemeName::CatppuccinMocha)
}

/// The byte formatting as written with floating point.
fn float_format_bytes(bytes: u64) -> String {
    const UNITS: [&str; 5] = ["B", "KiB", "MiB", "GiB", "TiB"];
    let mut value = bytes as f64;
    let mut idx = 0usize;
    while value >= 1024.0 && idx < UNITS.len() - 1 {
        value /= 1024.0;
        idx += 1;
    }
    format!("{value:.1}{}", UNITS[idx])
}

#[test]
fn compresses_many_mountpoints_in_suffix() {
    assert_eq!(disk_mount_suffix("/boot,/,/tmp,/nix/store"), "  / +3");
}

#[test]
fn mount_suffix_cases() {
    assert_eq!(disk_mount_suffix(""), "");
    assert_eq!(disk_mount_suffix(",,"), "");
    assert_eq!(disk_mount_suffix("/data"), "  /data");
    assert_eq!(disk_mount_suffix("/a,/b"), "  /a,/b");
    assert_eq!(disk_mount_suffix("/a,/b,/c"), "  /a,/b +1");
    assert_eq!(disk_mount_suffix("/a,/b,/"), "  / +2");
    assert_eq!(disk_mount_suffix("/a,,/b,/c,/d"), "  /a,/b +2");
}

#[test]
fn disk_label_prefers_name() {
    assert_eq!(disk_label("nvme0n1", "/"), "nvme0n1");
    assert_eq!(disk_label("", "/mnt"), "/mnt");
}

#[test]
fn truncation_and_padding() {
    assert_eq!(truncate_text("hello", 10), "hello");
    assert_eq!(truncate_text("hello", 5), "hello");
    assert_eq!(truncate_text("hello world", 8), "hello...");
    assert_eq!(truncate_text("hello", 3), "...");
    assert_eq!(truncate_text("hello", 2), "..");
    assert_eq!(truncate_text("hello", 0), "");
    assert_eq!(truncate_text("héllo wörld", 6), "hél...");
    assert_eq!(pad_or_truncate("ab", 5), "ab   ");
    assert_eq!(pad_or_truncate("abcdefgh", 5), "ab...");
    assert_eq!(pad_or_truncate("ab", 0), "");
    assert_eq!(pad_or_truncate("é", 3).chars().count(), 3);
}

#[test]
fn fallback_trims_and_replaces_blank() {
    assert_eq!(fallback_text("  x  ", "-"), "x");
    assert_eq!(fallback_text(" \t\n", "-"), "-");
    assert_eq!(fallback_text("", "none"), "none");
}

#[test]
fn labels() {
    assert_eq!(host_type_label(HostType::Local), "local");
    assert_eq!(host_type_label(HostType::Remote), "remote");
    assert_eq!(host_status_label(HostStatus::Online), "online");
    assert_eq!(host_status_label(HostStatus::Loading), "loading");
    assert_eq!(host_status_label(HostStatus::Unreachable), "unreachable");
    assert_eq!(host_status_label(HostStatus::Error), "error");
    assert_eq!(
        host_column_title("box", HostType::Remote, HostStatus::Error),
        "box | remote | error"
    );
}

#[test]
fn docker_problems_and_colours() {
    let p = mocha();
    assert!(docker_container_is_problem(&container("a", "b", "Restarting (1) 3s ago")));
    assert!(docker_container_is_problem(&container("a", "b", "Up 2 hours (unhealthy)")));
    assert!(docker_container_is_problem(&container("a", "b", "Dead")));
    assert!(docker_container_is_problem(&container("a", "b", "Up 1 hour (Paused)")));
    assert!(docker_container_is_problem(&container("a", "b", "Removal in progress removing")));
    assert!(!docker_container_is_problem(&container("a", "b", "Up 2 hours (healthy)")));
    assert_eq!(docker_status_color(&container("a", "b", "Dead"), &p), p.red);
    assert_eq!(docker_status_color(&container("a", "b", "Up 2 hours"), &p), p.green);
    assert_eq!(docker_status_color(&container("a", "b", "UP"), &p), p.green);
    assert_eq!(docker_status_color(&container("a", "b", "healthy"), &p), p.green);
    assert_eq!(docker_status_color(&container("a", "b", "Exited (0)"), &p), p.yellow);
    assert_eq!(docker_status_color(&container("a", "b", "upgrading"), &p), p.yellow);
    assert!(host_has_problem_docker(true, &vec![]));
    assert!(!host_has_problem_docker(false, &vec![container("a", "b", "Up")]));
    assert!(host_has_problem_docker(
        false,
        &vec![container("a", "b", "Up"), container("a", "b", "dead")]
    ));
}

#[test]
fn docker_table_cells() {
    let (i, c, s) = docker_header_cells(6, 4, 8);
    assert_eq!((i.as_str(), c.as_str(), s.as_str()), ("IMAGE ", "C...", "STATUS  "));
    let long = "registry.example.com/team/service-with-long-name:1.2.3";
    let (i, c, s) = docker_container_cells(&container(long, "  ", " Up 3 days "), 40, 5, 12);
    assert_eq!(i, "registry.example.com/team/servic...     ");
    assert_eq!(c, "-    ");
    assert_eq!(s, "Up 3 days   ");
}

#[test]
fn docker_column_widths_narrow_and_wide() {
    assert_eq!(docker_column_widths(0), (10, 6, 8));
    assert_eq!(docker_column_widths(20), (10, 6, 8));
    assert_eq!(docker_column_widths(28), (10, 6, 8));
    assert_eq!(docker_column_widths(29), (16, 10, 12));
    assert_eq!(docker_column_widths(104), (36, 14, 50));
    assert_eq!(docker_column_widths(54), (24, 10, 16));
}

#[test]
fn widget_heights() {
    assert_eq!(disk_widget_height(0), 3);
    assert_eq!(disk_widget_height(4), 6);
    assert_eq!(docker_widget_lines(true, 5), 3);
    assert_eq!(docker_widget_lines(false, 0), 3);
    assert_eq!(docker_widget_lines(false, 5), 8);
}

#[test]
fn host_list_window_follows_selection() {
    assert_eq!(host_list_window(8, 0, 10), (0, 2));
    assert_eq!(host_list_window(8, 5, 10), (4, 6));
    assert_eq!(host_list_window(8, 9, 10), (8, 10));
    assert_eq!(host_list_window(2, 3, 10), (3, 4));
    assert_eq!(host_list_window(40, 1, 3), (0, 3));
}

#[test]
fn timestamps_show_time_of_day() {
    assert_eq!(format_timestamp(Some(0)), "00:00:00");
    assert_eq!(format_timestamp(Some(3661)), "01:01:01");
    assert_eq!(format_timestamp(Some(86_399)), "23:59:59");
    assert_eq!(format_timestamp(Some(86_400 + 45)), "00:00:45");
    assert_eq!(format_timestamp(None), "invalid");
}

#[test]
fn staleness() {
    assert!(is_stale(None, 20_000));
    assert!(!is_stale(Some(20_000_000_000), 20_000));
    assert!(is_stale(Some(20_000_000_001), 20_000));
}

#[test]
fn colours_of_hosts() {
    let p = mocha();
    assert_eq!(status_border_color(&p, HostStatus::Online), p.sapphire);
    assert_eq!(status_border_color(&p, HostStatus::Loading), p.yellow);
    assert_eq!(status_border_color(&p, HostStatus::Error), p.red);
    assert_eq!(host_list_name_color(&p, HostStatus::Unreachable, false, None), p.red);
    assert_eq!(host_list_name_color(&p, HostStatus::Loading, true, None), p.yellow);
    assert_eq!(host_list_name_color(&p, HostStatus::Online, true, None), p.red);
    assert_eq!(
        host_list_name_color(&p, HostStatus::Online, false, Some(Severity::Warning)),
        p.yellow
    );
    assert_eq!(host_list_name_color(&p, HostStatus::Online, false, None), p.green);
    assert_eq!(host_list_detail_color(&p, HostStatus::Online, false), p.subtext);
    assert_eq!(host_list_detail_color(&p, HostStatus::Online, true), p.red);
    assert_eq!(host_list_detail_color(&p, HostStatus::Error, false), p.red);
    assert_eq!(host_list_detail_color(&p, HostStatus::Loading, false), p.yellow);
}

#[test]
fn cpu_gauge_takes_higher_level() {
    assert_eq!(cpu_gauge_severity(Severity::Warning, None), Severity::Warning);
    assert_eq!(
        cpu_gauge_severity(Severity::Normal, Some(Severity::Critical)),
        Severity::Critical
    );
    assert_eq!(
        cpu_gauge_severity(Severity::Critical, Some(Severity::Warning)),
        Severity::Critical
    );
}

#[test]
fn header_footer_and_help_text() {
    assert_eq!(header_position(0, 0), " 1/1");
    assert_eq!(header_position(2, 5), " 3/5");
    let keys = KeyBindings::default();
    assert_eq!(
        footer_hints(&keys),
        "h / Up / Left prev  l / Down / Right next  r refresh  ? help  q quit"
    );
    let lines = help_lines(&keys);
    assert_eq!(lines.len(), 8);
    assert_eq!(lines[0], "Navigation");
    assert_eq!(lines[1], "h / Up / Left  previous host");
    assert_eq!(lines[5], "q  quit application");
}

#[test]
fn offline_summaries() {
    assert_eq!(offline_summary(HostStatus::Online, &None), None);
    assert_eq!(
        offline_summary(HostStatus::Loading, &Some("x".to_string())),
        Some("waiting for metrics...".to_string())
    );
    assert_eq!(
        offline_summary(HostStatus::Error, &Some("  boom ".to_string())),
        Some("boom".to_string())
    );
    assert_eq!(
        offline_summary(HostStatus::Unreachable, &None),
        Some("unreachable".to_string())
    );
    assert_eq!(
        offline_summary(HostStatus::Error, &Some("   ".to_string())),
        Some("-".to_string())
    );
}

#[test]
fn host_cards_have_borders_and_fixed_width() {
    let lines = host_list_item_lines("alpha", "waiting for metrics...", false, 12);
    assert_eq!(lines[0], "┌──────────┐");
    assert_eq!(lines[1], "│ alpha    │");
    assert_eq!(lines[2], "│ waitin...│");
    assert_eq!(lines[3], "└──────────┘");
    let lines = host_list_item_lines("a-very-long-host-name-that-goes-on", "ok", true, 40);
    assert_eq!(lines[0].chars().count(), 40);
    assert_eq!(lines[1], "┃ a-very-long-host-name-tha...         ┃");
    assert_eq!(lines[2], "┃ ok                                   ┃");
    for l in &lines {
        assert_eq!(l.chars().count(), 40);
    }
}

#[test]
fn bytes_are_shown_in_binary_units() {
    assert_eq!(format_bytes(0), "0.0B");
    assert_eq!(format_bytes(1023), "1023.0B");
    assert_eq!(format_bytes(1024), "1.0KiB");
    assert_eq!(format_bytes(1536), "1.5KiB");
    assert_eq!(format_bytes(1_048_575), "1024.0KiB");
    assert_eq!(format_bytes(1_073_741_824), "1.0GiB");
    assert_eq!(format_bytes(u64::MAX), "16777216.0TiB");
}

#[test]
fn bytes_format_agrees_with_floating_point() {
    let mut samples: Vec<u64> = vec![
        0,
        1,
        1023,
        1024,
        1025,
        1075,
        1076,
        1126,
        1127,
        1177,
        1178,
        52_428,
        52_429,
        1_048_575,
        1_048_576,
        (1 << 53) - 1,
        1 << 53,
        (1 << 53) + 1,
        (1 << 53) + 3,
        u64::MAX - 1024,
        u64::MAX,
    ];
    let mut x: u64 = 0x9E37_79B9_7F4A_7C15;
    for _ in 0..2000 {
        x ^= x << 13;
        x ^= x >> 7;
        x ^= x << 17;
        samples.push(x >> (x % 64));
    }
    for k in 1..5u32 {
        let unit = 1u64 << (10 * k);
        for tenth in 0..20u64 {
            // The halfway points between tenths of a unit.
            samples.push(unit + unit * tenth / 10 + unit / 20);
            samples.push(unit * (tenth + 1) + unit / 20);
        }
    }
    for b in samples {
        assert_eq!(format_bytes(b), float_format_bytes(b), "bytes {b}");
    }
}
