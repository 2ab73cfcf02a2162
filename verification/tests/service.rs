use codex_quota::binary64::Binary64;
use codex_quota::clock::{epoch_millis, now_ms, to_millis, wrap_millis};
use codex_quota::quota::{QuotaSnapshot, QuotaWindow};
use codex_quota::service::{
    countdown, format_tooltip, schedule_reconnect, shutdown, AppState, Connection, Diagnostics,
    Pass, Reading, RefreshAction, RefreshReason, Service, RECONNECT_SECONDS, SECOND,
};
use codex_quota::storage::AppSettings;

use std::time::{Duration, UNIX_EPOCH};

const START: u64 = 1_000 * SECOND;

fn double(value: f64) -> Binary64 {
    Binary64 { bits: value.to_bits() }
}

fn snapshot(five: Option<f64>, weekly: Option<f64>, reset: Option<i64>) -> QuotaSnapshot {
    QuotaSnapshot {
        source: "session".into(),
        five_hour: five.map(|remaining| QuotaWindow {
            remaining_percent: Some(double(remaining)),
            resets_at_ms: reset,
            ..Default::default()
        }),
        long_window: weekly.map(|remaining| QuotaWindow {
            remaining_percent: Some(double(remaining)),
            ..Default::default()
        }),
        ..Default::default()
    }
}

fn from(source: &str) -> QuotaSnapshot {
    QuotaSnapshot { source: source.into(), ..Default::default() }
}

fn state(shown: Option<QuotaSnapshot>) -> AppState {
    AppState::new(AppSettings::default(), shown)
}

fn reading(result: Result<QuotaSnapshot, String>, running: bool) -> Reading {
    Reading {
        result,
        last_notification_ms: Some(3),
        last_bucket: Some("rateLimits fallback".into()),
        running,
    }
}

#[test]
fn empty_tooltip_is_clear() {
    assert_eq!(format_tooltip(None, 0), "Codex Quota · No data");
}

#[test]
fn missing_five_hour_waits() {
    assert_eq!(
        format_tooltip(Some(&snapshot(None, Some(80.0), None)), 0),
        "Codex Quota · Waiting for sync"
    );
}

#[test]
fn tooltip_has_percent_and_time() {
    let value = format_tooltip(Some(&snapshot(Some(63.0), None, Some(3_661_000))), 1_000);
    assert!(value.contains("5h 63%"));
    assert!(value.contains("01:01:00"));
}

#[test]
fn tooltip_includes_weekly() {
    assert!(
        format_tooltip(Some(&snapshot(Some(63.0), Some(42.0), Some(2_000))), 1_000)
            .contains("W 42%")
    );
}

#[test]
fn day_countdown_is_compact() {
    assert_eq!(countdown(Some(90_000_000), 0), "1d 1h");
}

#[test]
fn expired_countdown_waits() {
    assert_eq!(countdown(Some(100), 200), "waiting sync");
}

#[test]
fn reconnect_backoff_is_bounded() {
    assert_eq!(RECONNECT_SECONDS, [1, 3, 10, 30]);
}

#[test]
fn whole_tooltips() {
    assert_eq!(
        format_tooltip(Some(&snapshot(Some(62.5), Some(41.6), Some(2_000))), 1_000),
        "Codex · 5h 62% · 00:00:01 · W 42%"
    );
    let mut unknown = snapshot(Some(1.0), None, None);
    unknown.five_hour.as_mut().unwrap().remaining_percent = None;
    assert_eq!(format_tooltip(Some(&unknown), 0), "Codex · 5h N/A · waiting sync");
}

#[test]
fn countdown_edges() {
    assert_eq!(countdown(None, 0), "waiting sync");
    assert_eq!(countdown(Some(999), 0), "waiting sync");
    assert_eq!(countdown(Some(1000), 0), "00:00:01");
    assert_eq!(countdown(Some(86_399_999), 0), "23:59:59");
    assert_eq!(countdown(Some(86_400_000), 0), "1d 0h");
    assert_eq!(countdown(Some(i64::MAX), 0), "106751991167d 7h");
}

#[test]
fn waits_grow_and_stay_at_thirty_seconds() {
    let mut next: u64 = 0;
    let mut index: usize = 0;
    let mut waits = vec![];
    for _ in 0..6 {
        schedule_reconnect(START, &mut next, &mut index);
        waits.push((next - START) / SECOND);
    }
    assert_eq!(waits, vec![1, 3, 10, 30, 30, 30]);
    assert_eq!(index, 3);
    let mut other: u64 = 99 * START;
    let mut fresh: usize = 0;
    schedule_reconnect(START, &mut other, &mut fresh);
    assert_eq!((other, fresh), (START + SECOND, 1));
}

#[test]
fn a_new_state_names_its_source() {
    assert_eq!(state(None).diagnostics.source, "none");
    let cached = state(Some(from("cache")));
    assert_eq!(cached.diagnostics.source, "cache");
    assert_eq!(cached.diagnostics.app_server_status, "starting");
    assert_eq!(cached.diagnostics.codex_executable, "checking");
    assert_eq!(cached.diagnostics.app_server_pid, None);
    assert!(!cached.is_stopped());
}

#[test]
fn candidates_are_shown_by_rank() {
    let mut shown = state(Some(from("cache")));
    let update = shown.apply_snapshot(from("session")).unwrap();
    assert!(update.cached);
    assert_eq!(update.snapshot.source, "session");
    assert_eq!(shown.diagnostics.source, "session");
    assert!(shown.apply_snapshot(from("cache")).is_none());
    assert_eq!(shown.snapshot, Some(from("session")));
    assert_eq!(shown.diagnostics.source, "session");
}

#[test]
fn live_data_is_demoted_without_its_server() {
    let mut shown = state(Some(from("app-server")));
    assert!(shown.refresh_session(Some(from("session")), "/s".into()).is_none());
    let update = shown.demote_disconnected_live().unwrap();
    assert!(!update.cached);
    assert_eq!(update.snapshot.source, "cache");
    assert_eq!(shown.diagnostics.source, "cache");
    assert!(shown.demote_disconnected_live().is_none());
    assert!(shown.refresh_session(Some(from("session")), "/s".into()).is_some());
    assert_eq!(shown.diagnostics.source, "session");
    assert_eq!(shown.diagnostics.session_path, "/s");
    assert!(shown.refresh_session(None, "/t".into()).is_none());
    assert_eq!(shown.diagnostics.session_path, "/t");
}

#[test]
fn the_watcher_is_reported() {
    let mut shown = state(None);
    shown.watcher_started(true, "/a".into());
    assert_eq!(shown.diagnostics.watcher_status, "running");
    shown.watcher_started(false, "/b".into());
    assert_eq!(shown.diagnostics.watcher_status, "unavailable");
    assert_eq!(shown.diagnostics.session_path, "/b");
}

#[test]
fn settings_are_in_force_once_saved() {
    let mut shown = state(None);
    let new = AppSettings { theme: "dark".into(), ..Default::default() };
    assert_eq!(
        shown.save_settings(new.clone(), Err("disk full".into())),
        Err("disk full".to_string())
    );
    assert_eq!(shown.settings, AppSettings::default());
    assert_eq!(shown.save_settings(new.clone(), Ok(())), Ok(new.clone()));
    assert_eq!(shown.settings, new);
    let wild = AppSettings { refresh_interval_seconds: 1, ..Default::default() };
    let stored = shown.save_settings(wild, Ok(())).unwrap();
    assert_eq!(stored.refresh_interval_seconds, 15);
    assert_eq!(shown.settings, stored);
}

#[test]
fn stopping_is_waited_for_once() {
    let mut shown = state(None);
    assert_eq!(shutdown(&shown), Some(1200));
    shown.mark_stopped();
    assert!(shown.is_stopped());
    assert_eq!(shutdown(&shown), None);
}

#[test]
fn an_empty_quota_has_no_source() {
    let empty = state(None).get_quota(77);
    assert_eq!(empty.source, "none");
    assert_eq!(empty.received_at_ms, Some(77));
    assert_eq!(state(Some(from("cache"))).get_quota(77), from("cache"));
}

#[test]
fn diagnostics_are_copied_whole() {
    let mut shown = state(Some(from("cache")));
    shown.watcher_started(true, "/a".into());
    let copy: Diagnostics = shown.diagnostics.clone();
    assert_eq!(copy, shown.diagnostics);
    assert_eq!(Diagnostics::default().source, "");
}

#[test]
fn a_refresh_connects_and_reads() {
    let mut service = Service::new(START);
    let mut shown = state(Some(from("cache")));
    assert_eq!(service.refresh_full(&mut shown, START), RefreshAction::Connect);
    assert_eq!(shown.diagnostics.app_server_status, "starting");
    let connection = Connection::Connected { executable: "codex".into(), pid: 9 };
    assert_eq!(service.connect_done(&mut shown, connection, START), RefreshAction::Read);
    assert!(service.connected);
    assert_eq!(shown.diagnostics.app_server_status, "connected");
    assert_eq!(shown.diagnostics.codex_executable, "codex");
    assert_eq!(shown.diagnostics.app_server_pid, Some(9));
    assert!(shown.diagnostics.app_server_initialized);
    let (action, answer, loss) =
        service.read_done(&mut shown, reading(Ok(from("app-server")), true), 55, START);
    assert_eq!(action, RefreshAction::Finish);
    assert_eq!(answer.unwrap().snapshot.source, "app-server");
    assert!(loss.is_none());
    assert_eq!(shown.diagnostics.source, "app-server");
    assert_eq!(shown.diagnostics.app_server_last_read_ms, Some(55));
    assert_eq!(shown.diagnostics.app_server_last_notification_ms, Some(3));
    assert_eq!(shown.diagnostics.bucket.as_deref(), Some("rateLimits fallback"));
    assert_eq!(service.refresh_full(&mut shown, START), RefreshAction::Read);
}

#[test]
fn a_failed_connection_falls_back_to_sessions() {
    let mut service = Service::new(START);
    let mut shown = state(None);
    let failed = Connection::Failed("Codex executable not found".into());
    assert_eq!(service.connect_done(&mut shown, failed, START), RefreshAction::Scan);
    assert_eq!(shown.diagnostics.app_server_status, "disconnected");
    assert_eq!(shown.diagnostics.codex_executable, "not found");
    assert_eq!(
        shown.diagnostics.app_server_error.as_deref(),
        Some("Codex executable not found")
    );
    assert_eq!(service.next_reconnect, START + SECOND);
    assert_eq!(service.backoff_index, 1);
    assert_eq!(service.refresh_full(&mut shown, START), RefreshAction::Scan);
    assert_eq!(service.refresh_full(&mut shown, START + SECOND), RefreshAction::Connect);
    let broken = Connection::Failed("crashed".into());
    assert_eq!(service.connect_done(&mut shown, broken, START), RefreshAction::Scan);
    assert_eq!(shown.diagnostics.codex_executable, "found, start failed");
    assert_eq!(service.next_reconnect, START + 3 * SECOND);
}

#[test]
fn failed_readings_are_told_apart() {
    let mut service = Service { connected: true, ..Service::new(START) };
    let mut shown = state(None);
    let locked = reading(Err("Authentication Required for account".into()), true);
    let (action, answer, _) = service.read_done(&mut shown, locked, 55, START);
    assert_eq!(action, RefreshAction::Scan);
    assert!(answer.is_none());
    assert_eq!(shown.diagnostics.app_server_status, "authentication-required");
    let other = reading(Err("timeout".into()), true);
    service.read_done(&mut shown, other, 55, START);
    assert_eq!(shown.diagnostics.app_server_status, "connected-error");
    assert_eq!(shown.diagnostics.app_server_error.as_deref(), Some("timeout"));
    assert_eq!(shown.diagnostics.app_server_last_read_ms, None);
    assert!(service.connected);
}

#[test]
fn a_server_that_is_gone_is_forgotten() {
    let mut service = Service { connected: true, backoff_index: 3, ..Service::new(START) };
    let mut shown = state(None);
    let (action, answer, loss) =
        service.read_done(&mut shown, reading(Ok(from("app-server")), false), 55, START);
    assert_eq!(action, RefreshAction::Finish);
    assert!(answer.is_some());
    assert_eq!(loss.unwrap().snapshot.source, "cache");
    assert!(!service.connected);
    assert_eq!(service.next_reconnect, START + SECOND);
    assert_eq!(service.backoff_index, 1);
    assert_eq!(shown.diagnostics.app_server_status, "disconnected");
    assert_eq!(shown.diagnostics.app_server_pid, None);
    assert!(!shown.diagnostics.app_server_initialized);
    assert_eq!(shown.diagnostics.source, "cache");
    let mut idle = Service { connected: true, ..Service::new(START) };
    assert!(idle.lose_server(&mut shown, START).is_none());
    assert!(!idle.connected);
}

#[test]
fn passes_of_the_loop() {
    let none = Pass { stop: false, refresh_session: false, refresh_full: false };
    let full = Pass { refresh_full: true, ..none };
    let mut service = Service::new(START);
    assert_eq!(service.plan(None, 30, START), full);
    service.full_refreshed(START);
    service.connected = true;
    assert_eq!(service.plan(None, 30, START), none);
    assert_eq!(service.plan(Some(RefreshReason::Startup), 30, START), full);
    assert_eq!(service.plan(Some(RefreshReason::Manual), 30, START), full);
    assert_eq!(service.plan(Some(RefreshReason::Settings), 30, START), full);
    assert_eq!(service.plan(Some(RefreshReason::Shutdown), 30, START), Pass { stop: true, ..none });
    assert_eq!(service.plan(None, 30, START + 30 * SECOND - 1), none);
    assert_eq!(service.plan(None, 30, START + 30 * SECOND), full);
    assert_eq!(service.plan(None, 1, START + 15 * SECOND - 1), none);
    assert_eq!(service.plan(None, 1, START + 15 * SECOND), full);
    assert_eq!(service.plan(None, u64::MAX, START + 600 * SECOND), none);
}

#[test]
fn changed_session_files_are_looked_at_now_and_again() {
    let mut service = Service { connected: true, last_poll: START, ..Service::new(START) };
    let watcher = Some(RefreshReason::Watcher);
    assert!(service.plan(watcher, 30, START).refresh_session);
    service.session_refreshed(START);
    assert!(!service.plan(watcher, 30, START + 749_999_999).refresh_session);
    assert!(service.plan(watcher, 30, START + 750_000_000).refresh_session);
    assert!(!service.plan(None, 30, START + 750_000_000).refresh_session);
}

#[test]
fn announcements_are_followed_up_after_a_while() {
    let mut service = Service { connected: true, last_poll: START, ..Service::new(START) };
    service.notified(false, START);
    assert_eq!(service.notification_due, None);
    service.notified(true, START);
    assert!(!service.plan(None, 30, START + 349_999_999).refresh_full);
    assert!(service.plan(None, 30, START + 350_000_000).refresh_full);
    service.full_refreshed(START + 350_000_000);
    assert_eq!(service.notification_due, None);
    assert_eq!(service.last_poll, START + 350_000_000);
}

#[test]
fn connecting_waits_for_its_time() {
    let mut service = Service { last_poll: START, ..Service::new(START) };
    service.next_reconnect = START + SECOND;
    assert!(!service.plan(None, 30, START).refresh_full);
    assert!(service.plan(None, 30, START + SECOND).refresh_full);
}

#[test]
fn the_clock_runs() {
    let first = now_ms();
    assert!(first > 1_600_000_000_000);
    assert!(now_ms() >= first);
    assert_eq!(wrap_millis(1_788_000_000_000), 1_788_000_000_000);
    assert_eq!(wrap_millis(u128::MAX), -1);
    assert_eq!(epoch_millis(Some(12)), 12);
    assert_eq!(epoch_millis(None), 0);
    assert_eq!(to_millis(UNIX_EPOCH + Duration::from_micros(1_788_000_000_123_999)), 1_788_000_000_123);
    assert_eq!(to_millis(UNIX_EPOCH - Duration::from_secs(5)), 0);
}
