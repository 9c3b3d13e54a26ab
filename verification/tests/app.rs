use vsysmonitor::app::{
    collect_with_fallback, key_action, key_matches, rank, sorted_order, App, CollectorState,
    KeyAction, KeyCode, SendOutcome, WorkerResult,
};
use vsysmonitor::config::{AppConfig, KeyBindings};
use vsysmonitor::model::{HostDescriptor, HostInfo, HostStatus, HostType};

fn descriptor(id: &str, host_type: HostType) -> HostDescriptor {
    HostDescriptor {
        id: id.to_string(),
        alias: id.to_string(),
        display_name: id.to_string(),
        host_type,
    }
}

fn host(id: &str, host_type: HostType, status: HostStatus) -> HostInfo<()> {
    let mut h = HostInfo::loading(descriptor(id, host_type), ());
    h.status = status;
    h
}

fn state(id: &str, host_type: HostType, status: HostStatus) -> CollectorState<()> {
    CollectorState {
        descriptor: descriptor(id, host_type),
        host: host(id, host_type, status),
        last_refresh_at: None,
        pending: false,
    }
}

fn listed_ids(app: &App<()>) -> Vec<String> {
    (0..app.host_count()).map(|k| app.host(k).id.clone()).collect()
}

fn sample_app(unreachable_to_end: bool) -> App<()> {
    let mut config = AppConfig::default();
    config.ssh.unreachable_to_end = unreachable_to_end;
    App::new(
        config,
        vec![
            state("remote:err", HostType::Remote, HostStatus::Error),
            state("remote:down", HostType::Remote, HostStatus::Unreachable),
            state("local", HostType::Local, HostStatus::Online),
            state("remote:up", HostType::Remote, HostStatus::Online),
            state("remote:wait", HostType::Remote, HostStatus::Loading),
        ],
    )
}

#[test]
fn key_matching_ignores_ascii_case_and_names_special_keys() {
    assert!(key_matches("q", &KeyCode::Char('q')));
    assert!(key_matches("Q", &KeyCode::Char('q')));
    assert!(key_matches("q", &KeyCode::Char('Q')));
    assert!(!key_matches("q", &KeyCode::Char('w')));
    assert!(key_matches("Esc", &KeyCode::Esc));
    assert!(key_matches("ENTER", &KeyCode::Enter));
    assert!(key_matches("left", &KeyCode::Left));
    assert!(key_matches("right", &KeyCode::Right));
    assert!(!key_matches("up", &KeyCode::Up));
    assert!(!key_matches("down", &KeyCode::Down));
    assert!(!key_matches("esc", &KeyCode::Other));
    assert!(!key_matches("qq", &KeyCode::Char('q')));
}

#[test]
fn key_actions_follow_bindings_and_arrows() {
    let keys = KeyBindings::default();
    assert_eq!(key_action(&keys, &KeyCode::Char('q')), KeyAction::Quit);
    assert_eq!(key_action(&keys, &KeyCode::Char('?')), KeyAction::ToggleHelp);
    assert_eq!(key_action(&keys, &KeyCode::Char('r')), KeyAction::Refresh);
    assert_eq!(key_action(&keys, &KeyCode::Char('l')), KeyAction::NextHost);
    assert_eq!(key_action(&keys, &KeyCode::Right), KeyAction::NextHost);
    assert_eq!(key_action(&keys, &KeyCode::Down), KeyAction::NextHost);
    assert_eq!(key_action(&keys, &KeyCode::Char('h')), KeyAction::PrevHost);
    assert_eq!(key_action(&keys, &KeyCode::Left), KeyAction::PrevHost);
    assert_eq!(key_action(&keys, &KeyCode::Up), KeyAction::PrevHost);
    assert_eq!(key_action(&keys, &KeyCode::Char('z')), KeyAction::Ignored);
    assert_eq!(key_action(&keys, &KeyCode::Enter), KeyAction::Ignored);
}

#[test]
fn quit_takes_precedence_over_other_bindings() {
    let mut keys = KeyBindings::default();
    keys.quit = "l".to_string();
    assert_eq!(key_action(&keys, &KeyCode::Char('l')), KeyAction::Quit);
    keys.quit = "right".to_string();
    assert_eq!(key_action(&keys, &KeyCode::Right), KeyAction::Quit);
}

#[test]
fn ranks_put_local_first_and_errors_last() {
    assert_eq!(rank(HostType::Local, HostStatus::Error), 0);
    assert_eq!(rank(HostType::Remote, HostStatus::Online), 1);
    assert_eq!(rank(HostType::Remote, HostStatus::Loading), 1);
    assert_eq!(rank(HostType::Remote, HostStatus::Unreachable), 2);
    assert_eq!(rank(HostType::Remote, HostStatus::Error), 3);
}

#[test]
fn sorted_order_is_stable_by_rank() {
    let kinds = vec![
        (HostType::Remote, HostStatus::Error),
        (HostType::Remote, HostStatus::Online),
        (HostType::Local, HostStatus::Online),
        (HostType::Remote, HostStatus::Unreachable),
        (HostType::Remote, HostStatus::Loading),
        (HostType::Remote, HostStatus::Online),
    ];
    assert_eq!(sorted_order(&kinds, true), vec![2, 1, 4, 5, 3, 0]);
    assert_eq!(sorted_order(&kinds, false), vec![0, 1, 2, 3, 4, 5]);
    assert!(sorted_order(&vec![], true).is_empty());
}

#[test]
fn new_app_lists_in_display_order_and_selects_first() {
    let app = sample_app(true);
    assert_eq!(
        listed_ids(&app),
        vec!["local", "remote:up", "remote:wait", "remote:down", "remote:err"]
    );
    assert_eq!(app.selected_host_id().map(|s| s.as_str()), Some("local"));
    assert_eq!(app.selected_host_index(), 0);
    assert_eq!(app.selected_host().unwrap().id, "local");
    assert!(!app.should_quit());
    assert!(!app.show_help());

    let app = sample_app(false);
    assert_eq!(
        listed_ids(&app),
        vec!["remote:err", "remote:down", "local", "remote:up", "remote:wait"]
    );
    assert_eq!(app.selected_host_id().map(|s| s.as_str()), Some("remote:err"));
}

#[test]
fn empty_app_has_no_selection() {
    let mut app: App<()> = App::new(AppConfig::default(), vec![]);
    assert_eq!(app.host_count(), 0);
    assert!(app.selected_host().is_none());
    assert_eq!(app.selected_host_index(), 0);
    app.select_next_host();
    assert!(app.selected_host_id().is_none());
    app.select_prev_host();
    assert!(app.selected_host_id().is_none());
}

#[test]
fn next_and_prev_wrap_around() {
    let mut app = sample_app(true);
    app.select_prev_host();
    assert_eq!(app.selected_host_index(), 4);
    assert_eq!(app.selected_host().unwrap().id, "remote:err");
    app.select_next_host();
    assert_eq!(app.selected_host_index(), 0);
    app.select_next_host();
    app.select_next_host();
    assert_eq!(app.selected_host().unwrap().id, "remote:wait");
    app.select_prev_host();
    assert_eq!(app.selected_host().unwrap().id, "remote:up");
}

#[test]
fn handle_key_quits_toggles_help_and_moves() {
    let mut app = sample_app(true);
    assert_eq!(app.handle_key(KeyCode::Char('?')), KeyAction::ToggleHelp);
    assert!(app.show_help());
    assert_eq!(app.handle_key(KeyCode::Char('?')), KeyAction::ToggleHelp);
    assert!(!app.show_help());
    assert_eq!(app.handle_key(KeyCode::Down), KeyAction::NextHost);
    assert_eq!(app.selected_host().unwrap().id, "remote:up");
    assert_eq!(app.handle_key(KeyCode::Char('H')), KeyAction::PrevHost);
    assert_eq!(app.selected_host().unwrap().id, "local");
    assert_eq!(app.handle_key(KeyCode::Char('r')), KeyAction::Refresh);
    assert_eq!(app.selected_host().unwrap().id, "local");
    assert!(!app.should_quit());
    assert_eq!(app.handle_key(KeyCode::Char('q')), KeyAction::Quit);
    assert!(app.should_quit());
}

#[test]
fn results_update_hosts_and_reorder_keeping_selection() {
    let mut app = sample_app(true);
    app.select_next_host();
    assert_eq!(app.selected_host().unwrap().id, "remote:up");
    let results = vec![
        WorkerResult {
            host_id: "remote:up".to_string(),
            host: host("remote:up", HostType::Remote, HostStatus::Unreachable),
        },
        WorkerResult {
            host_id: "remote:err".to_string(),
            host: host("remote:err", HostType::Remote, HostStatus::Online),
        },
        WorkerResult {
            host_id: "nobody".to_string(),
            host: host("nobody", HostType::Remote, HostStatus::Online),
        },
    ];
    app.poll_updates(results, 500);
    assert_eq!(
        listed_ids(&app),
        vec!["local", "remote:err", "remote:wait", "remote:down", "remote:up"]
    );
    assert_eq!(app.selected_host().unwrap().id, "remote:up");
    assert_eq!(app.selected_host_index(), 4);
}

#[test]
fn unknown_results_change_nothing() {
    let mut app = sample_app(true);
    let before = listed_ids(&app);
    app.poll_updates(
        vec![WorkerResult {
            host_id: "ghost".to_string(),
            host: host("ghost", HostType::Remote, HostStatus::Online),
        }],
        1,
    );
    assert_eq!(listed_ids(&app), before);
    assert_eq!(app.selected_host().unwrap().id, "local");
}

#[test]
fn initial_targets_are_idle_remote_collectors() {
    let app = sample_app(true);
    assert_eq!(app.initial_refresh_targets(), vec![0, 1, 3, 4]);
}

#[test]
fn refresh_targets_follow_intervals_and_busy_flags() {
    let config = AppConfig::default();
    let mut local = state("local", HostType::Local, HostStatus::Online);
    local.last_refresh_at = Some(1_000_000_000);
    let mut remote = state("remote:a", HostType::Remote, HostStatus::Online);
    remote.last_refresh_at = Some(1_000_000_000);
    let fresh = state("remote:b", HostType::Remote, HostStatus::Loading);
    let mut app = App::new(config, vec![local, remote, fresh]);

    // 1.999 s after the refreshes: only the never-refreshed collector is due.
    assert_eq!(app.refresh_targets(2_999_000_000, false), vec![2]);
    // 2 s later the local interval has passed.
    assert_eq!(app.refresh_targets(3_000_000_000, false), vec![0, 2]);
    // 15 s later both intervals have passed.
    assert_eq!(app.refresh_targets(16_000_000_000, false), vec![0, 1, 2]);
    // A clock reading before the last refresh counts as no time passed.
    assert_eq!(app.refresh_targets(0, false), vec![2]);
    // Forcing asks every idle collector.
    assert_eq!(app.refresh_targets(0, true), vec![0, 1, 2]);

    app.record_send(2, SendOutcome::Sent);
    app.record_send(0, SendOutcome::Full);
    assert_eq!(app.refresh_targets(16_000_000_000, true), vec![1]);
    app.record_send(1, SendOutcome::Disconnected);
    assert_eq!(app.refresh_targets(16_000_000_000, true), vec![1]);
}

#[test]
fn results_clear_busy_flag_and_restart_interval() {
    let mut app = App::new(
        AppConfig::default(),
        vec![state("remote:a", HostType::Remote, HostStatus::Loading)],
    );
    app.record_send(0, SendOutcome::Sent);
    assert!(app.refresh_targets(0, true).is_empty());
    let t = app.refresh_due(
        vec![WorkerResult {
            host_id: "remote:a".to_string(),
            host: host("remote:a", HostType::Remote, HostStatus::Online),
        }],
        10_000_000_000,
        false,
    );
    assert!(t.is_empty());
    assert_eq!(app.host(0).status, HostStatus::Online);
    assert_eq!(app.refresh_due(vec![], 24_999_999_999, false), Vec::<usize>::new());
    assert_eq!(app.refresh_due(vec![], 25_000_000_000, false), vec![0]);
    assert_eq!(app.refresh_all(vec![], 10_000_000_001), vec![0]);
}

#[test]
fn collector_state_due_and_send() {
    let config = AppConfig::default();
    let mut c = state("local", HostType::Local, HostStatus::Online);
    assert!(c.is_due(0, &config));
    c.last_refresh_at = Some(5);
    assert!(!c.is_due(2_000_000_004, &config));
    assert!(c.is_due(2_000_000_005, &config));
    c.record_send(SendOutcome::Sent);
    assert!(c.pending);
    assert!(!c.is_due(u128::MAX, &config));
    c.record_send(SendOutcome::Disconnected);
    assert!(!c.pending);
}

#[test]
fn failed_collection_becomes_error_host() {
    let d = descriptor("local", HostType::Local);
    let h = collect_with_fallback(d.clone(), Err("boom".to_string()), ());
    assert_eq!(h.id, "local");
    assert_eq!(h.status, HostStatus::Error);
    assert_eq!(h.last_error.as_deref(), Some("boom"));
    let ok = host("local", HostType::Local, HostStatus::Online);
    let h = collect_with_fallback(d, Ok(ok), ());
    assert_eq!(h.status, HostStatus::Online);
    assert!(h.last_error.is_none());
}

#[test]
fn loading_host_copies_descriptor() {
    let h = HostInfo::loading(descriptor("remote:x", HostType::Remote), 7u8);
    assert_eq!(h.id, "remote:x");
    assert_eq!(h.alias, "remote:x");
    assert_eq!(h.host_type, HostType::Remote);
    assert_eq!(h.status, HostStatus::Loading);
    assert_eq!(h.data, 7);
    assert!(h.last_error.is_none());
}
