use vsysmonitor::config::{AppConfig, PathError};
use vsysmonitor::model::{HostStatus, HostType};
use vsysmonitor::remote::{
    classify_ssh_failure, compact_remote_error, expand_home_path, parse_ssh_config, parse_u64,
    ping_outcome, load_remote_collectors, remote_metrics_script, scan_remote_payload, should_retry,
    PayloadField, RemoteCollectError, RemoteCollector, SshHostEntry, REMOTE_METRICS_SCRIPT,
};

fn message(e: &RemoteCollectError) -> &str {
    match e {
        RemoteCollectError::Unreachable(m) => m,
        RemoteCollectError::Error(m) => m,
    }
}

#[test]
fn parses_basic_ssh_config_aliases() {
    let hosts = parse_ssh_config(
        "Host server\n    HostName 10.0.0.1\nHost *\n    ForwardAgent no\nHost app db\n    HostName internal\n",
    );

    assert_eq!(hosts.len(), 3);
    assert_eq!(hosts[0].alias, "server");
    assert_eq!(hosts[0].host_name.as_deref(), Some("10.0.0.1"));
    assert_eq!(hosts[1].alias, "app");
    assert_eq!(hosts[2].alias, "db");
}

#[test]
fn ssh_config_shares_host_name_within_block() {
    let hosts = parse_ssh_config("Host app db\n    HostName internal\n");
    assert_eq!(hosts[0].host_name.as_deref(), Some("internal"));
    assert_eq!(hosts[1].host_name.as_deref(), Some("internal"));
}

#[test]
fn ssh_config_ignores_comments_case_and_patterns() {
    let raw = "# global\nhostname early\nHOST web # main\r\n  hostNAME   10.1.2.3   \nHost !bad ba?d web *x\nHost lone\nHost\nHostName\n";
    let hosts = parse_ssh_config(raw);
    assert_eq!(hosts.len(), 2);
    assert_eq!(hosts[0].alias, "web");
    assert_eq!(hosts[0].host_name.as_deref(), Some("10.1.2.3"));
    assert_eq!(hosts[1].alias, "lone");
    assert_eq!(hosts[1].host_name, None);
}

#[test]
fn ssh_config_keeps_first_block_of_repeated_alias() {
    let hosts = parse_ssh_config("Host a\nHostName one\nHost a b\nHostName two words\n");
    assert_eq!(hosts.len(), 2);
    assert_eq!(hosts[0].alias, "a");
    assert_eq!(hosts[0].host_name.as_deref(), Some("one"));
    assert_eq!(hosts[1].alias, "b");
    assert_eq!(hosts[1].host_name.as_deref(), Some("two words"));
}

#[test]
fn ssh_config_empty_gives_no_hosts() {
    assert!(parse_ssh_config("").is_empty());
    assert!(parse_ssh_config("Host *\n").is_empty());
}

#[test]
fn classifies_authentication_failure() {
    let e = classify_ssh_failure("  Warning: x\nuser@h: Permission denied (publickey).\n\n");
    assert!(matches!(e, RemoteCollectError::Error(_)));
    assert_eq!(message(&e), "user@h: Permission denied (publickey).");
}

#[test]
fn classifies_unreachable_host() {
    let e = classify_ssh_failure("ssh: connect to host x port 22: Connection timed out\n");
    assert!(matches!(e, RemoteCollectError::Unreachable(_)));
    assert_eq!(message(&e), "ssh: connect to host x port 22: Connection timed out");
    let e = classify_ssh_failure("ssh: Could not resolve hostname nowhere: Name or service not known");
    assert!(e.is_retryable());
}

#[test]
fn classifies_other_failures_with_fallbacks() {
    let e = classify_ssh_failure("   \n ");
    assert!(matches!(e, RemoteCollectError::Error(_)));
    assert_eq!(message(&e), "ssh failed");
    let e = classify_ssh_failure("kex_exchange_identification: read: Connection reset by peer");
    assert!(matches!(e, RemoteCollectError::Unreachable(_)));
    let e = classify_ssh_failure("something odd");
    assert!(matches!(e, RemoteCollectError::Error(_)));
    assert_eq!(message(&e), "something odd");
}

#[test]
fn compact_error_takes_last_nonblank_line() {
    assert_eq!(compact_remote_error("first\n  second  \n\n   \n", "fb"), "second");
    assert_eq!(compact_remote_error("", "fb"), "fb");
    assert_eq!(compact_remote_error(" \r\n\t\n", "fb"), "fb");
}

#[test]
fn parse_u64_reads_trimmed_numbers() {
    assert_eq!(parse_u64(" 200\n", "mem_total").unwrap(), 200);
    assert_eq!(parse_u64("+7", "x").unwrap(), 7);
    assert_eq!(parse_u64("18446744073709551615", "x").unwrap(), u64::MAX);
}

#[test]
fn parse_u64_reports_each_error_kind() {
    let e = parse_u64("  ", "mem_used").unwrap_err();
    assert_eq!(message(&e), "failed to parse mem_used: cannot parse integer from empty string");
    let e = parse_u64("12a", "mem_used").unwrap_err();
    assert_eq!(message(&e), "failed to parse mem_used: invalid digit found in string");
    let e = parse_u64("-1", "mem_used").unwrap_err();
    assert_eq!(message(&e), "failed to parse mem_used: invalid digit found in string");
    let e = parse_u64("+", "f").unwrap_err();
    assert_eq!(message(&e), "failed to parse f: invalid digit found in string");
    let e = parse_u64("18446744073709551616", "mem_total").unwrap_err();
    assert!(matches!(e, RemoteCollectError::Error(_)));
    assert_eq!(message(&e), "failed to parse mem_total: number too large to fit in target type");
}

#[test]
fn parse_u64_agrees_with_std() {
    for s in ["0", "42", "+0", "007", "99999999999999999999", "", "+", "-", "1 2", "١"] {
        assert_eq!(parse_u64(s, "f").ok(), s.parse::<u64>().ok(), "{s:?}");
    }
}

#[test]
fn expands_home_directory() {
    assert_eq!(expand_home_path("~", Some("/home/me")).unwrap(), "/home/me");
    assert_eq!(expand_home_path("~/.ssh/config", Some("/home/me")).unwrap(), "/home/me/.ssh/config");
    assert_eq!(expand_home_path("~/.ssh/config", Some("/home/me/")).unwrap(), "/home/me/.ssh/config");
    assert_eq!(expand_home_path("/etc/ssh/config", None).unwrap(), "/etc/ssh/config");
    assert_eq!(expand_home_path("~user/x", None).unwrap(), "~user/x");
    assert_eq!(expand_home_path("~", None), Err(PathError::NoHome));
    assert_eq!(expand_home_path("~/x", None), Err(PathError::NoHome));
}

#[test]
fn remote_collector_names_and_commands() {
    let mut config = AppConfig::default();
    config.ssh.ssh_connect_timeout_ms = 2_500;
    config.ssh.host_ping_timeout_ms = 300;
    let c = RemoteCollector::new(
        &config,
        "/home/me/.ssh/config".to_string(),
        SshHostEntry { alias: "db".to_string(), host_name: Some("10.0.0.2".to_string()) },
    );
    let d = c.descriptor();
    assert_eq!(d.id, "remote:db");
    assert_eq!(d.alias, "db");
    assert_eq!(d.display_name, "db");
    assert_eq!(d.host_type, HostType::Remote);
    assert_eq!(c.ping_host, "10.0.0.2");
    assert_eq!(
        c.ssh_args(),
        vec![
            "-F", "/home/me/.ssh/config", "-o", "BatchMode=yes", "-o", "NumberOfPasswordPrompts=0",
            "-o", "ConnectTimeout=2", "db", "sh", "-s"
        ]
    );
    assert_eq!(c.ping_args(), vec!["-c", "1", "-W", "1", "10.0.0.2"]);
    assert!(!c.checks_ping_first());
    let h = c.host_with_status(HostStatus::Unreachable, (), Some("No ping".to_string()));
    assert_eq!(h.id, "remote:db");
    assert_eq!(h.status, HostStatus::Unreachable);
    assert_eq!(h.last_error.as_deref(), Some("No ping"));
}

#[test]
fn remote_collectors_follow_config_order() {
    let config = AppConfig::default();
    let cs = load_remote_collectors(&config, "/cfg", Some("Host a b\nHost c\n  HostName 1.2.3.4\n"));
    let ids: Vec<&str> = cs.iter().map(|c| c.descriptor.id.as_str()).collect();
    assert_eq!(ids, vec!["remote:a", "remote:b", "remote:c"]);
    assert_eq!(cs[0].ping_host, "a");
    assert_eq!(cs[2].ping_host, "1.2.3.4");
    assert_eq!(cs[2].ssh_config_path, "/cfg");
}

#[test]
fn missing_ssh_config_gives_no_collectors() {
    let config = AppConfig::default();
    assert!(load_remote_collectors(&config, "/nowhere", None).is_empty());
}

#[test]
fn retries_once_only_when_unreachable() {
    let u = RemoteCollectError::Unreachable("x".to_string());
    let e = RemoteCollectError::Error("x".to_string());
    assert!(should_retry(0, &u));
    assert!(!should_retry(1, &u));
    assert!(!should_retry(0, &e));
}

#[test]
fn ping_outcome_and_status() {
    assert!(ping_outcome(true).is_ok());
    let e = ping_outcome(false).unwrap_err();
    assert_eq!(message(&e), "No ping");
    let (status, msg) = e.into_status();
    assert_eq!(status, HostStatus::Unreachable);
    assert_eq!(msg, "No ping");
    let (status, _) = RemoteCollectError::Error("boom".to_string()).into_status();
    assert_eq!(status, HostStatus::Error);
}

#[test]
fn scans_remote_payload() {
    let payload = r#"\
cpu_usage=12.5
cpu_temp=58.0
mem_used=100
mem_total=200
__LSBLK_BEGIN__
{"blockdevices":[{"name":"sda","type":"disk","size":100,"fsused":null,"mountpoints":null,"children":[{"name":"sda1","type":"part","size":80,"fsused":50,"mountpoints":["/"]},{"name":"sda2","type":"part","size":20,"fsused":10,"mountpoints":["/boot"]}]}]}
__LSBLK_END__
"#;
    let p = scan_remote_payload(payload);
    assert_eq!(
        p.fields,
        vec![
            (PayloadField::CpuUsage, "12.5".to_string()),
            (PayloadField::CpuTemp, "58.0".to_string()),
            (PayloadField::MemUsed, "100".to_string()),
            (PayloadField::MemTotal, "200".to_string()),
        ]
    );
    assert_eq!(p.lsblk_lines.len(), 1);
    assert!(p.lsblk_lines[0].starts_with("{\"blockdevices\""));
}

#[test]
fn scan_skips_unknown_and_blank_lines_and_keeps_raw_block_lines() {
    let p = scan_remote_payload("junk\n\n  cpu_temp=\n__LSBLK_BEGIN__\n  cpu_usage=1  \n__LSBLK_END__\nmem_total= 5 \r\n");
    assert_eq!(
        p.fields,
        vec![(PayloadField::CpuTemp, "".to_string()), (PayloadField::MemTotal, " 5".to_string())]
    );
    assert_eq!(p.lsblk_lines, vec!["  cpu_usage=1  ".to_string()]);
}

#[test]
fn script_prints_the_expected_markers() {
    let s = remote_metrics_script();
    assert_eq!(s, REMOTE_METRICS_SCRIPT);
    assert!(s.contains("printf 'cpu_usage=%s\\n'"));
    assert!(s.contains("__LSBLK_BEGIN__"));
    assert!(s.contains("__LSBLK_END__"));
}
