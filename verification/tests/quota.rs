use codex_quota::binary64::Binary64;
use codex_quota::json::{parse_json, Json};
use codex_quota::quota::{
    app_server_bucket_source, classify_windows, find_windows, normalize_window,
    parse_app_server_response, should_replace, source_rank, QuotaSnapshot, QuotaWindow,
};

fn json(text: &str) -> Json {
    parse_json(text).unwrap()
}

fn double(value: f64) -> Option<Binary64> {
    Some(Binary64 { bits: value.to_bits() })
}

fn lasting(minutes: u64) -> QuotaWindow {
    QuotaWindow { window_duration_mins: Some(minutes), ..Default::default() }
}

#[test]
fn camel_case_normalizes() {
    let value = normalize_window(&json(r#"{"usedPercent":32,"windowDurationMins":300}"#));
    assert_eq!(value.remaining_percent, double(68.0));
    assert_eq!(value.window_duration_mins, Some(300));
}

#[test]
fn snake_case_normalizes() {
    let value = normalize_window(&json(r#"{"used_percent":20,"window_minutes":10080}"#));
    assert_eq!(value.remaining_percent, double(80.0));
    assert_eq!(value.window_duration_mins, Some(10080));
}

#[test]
fn explicit_remaining_wins() {
    assert_eq!(
        normalize_window(&json(r#"{"usedPercent":90,"remainingPercent":44}"#)).remaining_percent,
        double(44.0)
    );
}

#[test]
fn percentages_are_clamped_when_derived() {
    assert_eq!(
        normalize_window(&json(r#"{"usedPercent":140}"#)).remaining_percent,
        double(0.0)
    );
    assert_eq!(
        normalize_window(&json(r#"{"usedPercent":-20}"#)).remaining_percent,
        double(100.0)
    );
}

#[test]
fn seconds_become_milliseconds() {
    assert_eq!(
        normalize_window(&json(r#"{"resetsAt":1788000000}"#)).resets_at_ms,
        Some(1_788_000_000_000)
    );
}

#[test]
fn milliseconds_are_preserved() {
    assert_eq!(
        normalize_window(&json(r#"{"resets_at":1788000000000}"#)).resets_at_ms,
        Some(1_788_000_000_000)
    );
}

#[test]
fn classify_standard_windows() {
    let result = classify_windows(
        vec![
            normalize_window(&json(r#"{"usedPercent":10,"windowDurationMins":300}"#)),
            normalize_window(&json(r#"{"usedPercent":20,"windowDurationMins":10080}"#)),
        ],
        "session",
        7,
    )
    .unwrap();
    assert_eq!(result.five_hour.unwrap().kind, "five-hour");
    assert_eq!(result.long_window.unwrap().kind, "weekly");
}

#[test]
fn classify_generic_long_window() {
    let result = classify_windows(
        vec![normalize_window(&json(r#"{"usedPercent":10,"windowDurationMins":1440}"#))],
        "session",
        7,
    )
    .unwrap();
    assert_eq!(result.long_window.unwrap().kind, "long-window");
}

#[test]
fn unknown_duration_is_ignored() {
    assert!(classify_windows(
        vec![normalize_window(&json(r#"{"usedPercent":10,"windowDurationMins":60}"#))],
        "session",
        7
    )
    .is_none());
}

#[test]
fn app_server_codex_bucket_parses() {
    let response = json(
        r#"{"result":{"rateLimitsByLimitId":{"codex":{"primary":{"usedPercent":25,"windowDurationMins":300},"secondary":{"usedPercent":50,"windowDurationMins":10080}}}}}"#,
    );
    let result = parse_app_server_response(&response, 99).unwrap();
    assert_eq!(result.source, "app-server");
    assert_eq!(result.five_hour.unwrap().remaining_percent, double(75.0));
}

#[test]
fn codex_bucket_wins_over_other_buckets() {
    let response = json(
        r#"{"result":{"rateLimitsByLimitId":{"other":{"primary":{"usedPercent":1,"windowDurationMins":300}},"codex":{"primary":{"usedPercent":92,"windowDurationMins":300}}}}}"#,
    );
    assert_eq!(
        parse_app_server_response(&response, 99)
            .unwrap()
            .five_hour
            .unwrap()
            .remaining_percent,
        double(8.0)
    );
}

#[test]
fn null_secondary_is_safe() {
    let response = json(
        r#"{"result":{"rateLimits":{"primary":{"usedPercent":25,"windowDurationMins":300},"secondary":null}}}"#,
    );
    let value = parse_app_server_response(&response, 99).unwrap();
    assert!(value.five_hour.is_some());
    assert!(value.long_window.is_none());
}

#[test]
fn missing_reset_is_preserved_as_unknown() {
    let response = json(
        r#"{"result":{"rateLimits":{"primary":{"usedPercent":25,"windowDurationMins":300}}}}"#,
    );
    assert!(parse_app_server_response(&response, 99)
        .unwrap()
        .five_hour
        .unwrap()
        .resets_at_ms
        .is_none());
}

#[test]
fn bucket_source_is_reported() {
    let codex = json(r#"{"result":{"rateLimitsByLimitId":{"codex":{}}}}"#);
    let fallback = json(r#"{"result":{"rateLimits":{"limitId":"codex"}}}"#);
    assert_eq!(app_server_bucket_source(&codex), Some("rateLimitsByLimitId.codex"));
    assert_eq!(app_server_bucket_source(&fallback), Some("rateLimits fallback"));
}

#[test]
fn app_server_root_fallback_parses() {
    let response = json(
        r#"{"result":{"rateLimits":{"limitId":"codex","primary":{"usedPercent":25,"windowDurationMins":300}}}}"#,
    );
    assert!(parse_app_server_response(&response, 99).unwrap().five_hour.is_some());
}

#[test]
fn non_codex_fallback_is_rejected() {
    let response = json(
        r#"{"result":{"rateLimits":{"limitId":"other","primary":{"usedPercent":25,"windowDurationMins":300}}}}"#,
    );
    assert!(parse_app_server_response(&response, 99).is_none());
}

#[test]
fn source_ranking_is_explicit() {
    assert!(source_rank("app-server") > source_rank("session"));
    assert!(source_rank("session") > source_rank("cache"));
}

#[test]
fn higher_priority_replaces() {
    let old = QuotaSnapshot { source: "cache".into(), ..Default::default() };
    let new = QuotaSnapshot { source: "session".into(), ..Default::default() };
    assert!(should_replace(Some(&old), &new));
}

#[test]
fn newer_session_cannot_override_live() {
    let old = QuotaSnapshot {
        source: "app-server".into(),
        received_at_ms: Some(100),
        ..Default::default()
    };
    let new = QuotaSnapshot {
        source: "session".into(),
        observed_at_ms: Some(101),
        ..Default::default()
    };
    assert!(!should_replace(Some(&old), &new));
}

#[test]
fn older_cache_cannot_replace_live() {
    let old = QuotaSnapshot {
        source: "app-server".into(),
        received_at_ms: Some(100),
        ..Default::default()
    };
    let new = QuotaSnapshot {
        source: "cache".into(),
        observed_at_ms: Some(99),
        ..Default::default()
    };
    assert!(!should_replace(Some(&old), &new));
}

#[test]
fn ranks_have_their_values() {
    assert_eq!(source_rank("app-server"), 3);
    assert_eq!(source_rank("session"), 2);
    assert_eq!(source_rank("cache"), 1);
    assert_eq!(source_rank("none"), 0);
    assert_eq!(source_rank(""), 0);
}

#[test]
fn same_source_replaces_and_nothing_gives_way() {
    let session = QuotaSnapshot { source: "session".into(), ..Default::default() };
    assert!(should_replace(Some(&session), &session));
    assert!(should_replace(None, &session));
}

#[test]
fn missing_members_leave_a_window_empty() {
    assert_eq!(normalize_window(&json("{}")), QuotaWindow::default());
    assert_eq!(normalize_window(&json("[1]")), QuotaWindow::default());
    assert_eq!(
        normalize_window(&json(r#"{"usedPercent":"12","resetsAt":null}"#)),
        QuotaWindow::default()
    );
}

#[test]
fn fractions_are_kept_and_negative_durations_are_zero() {
    let value = normalize_window(&json(
        r#"{"usedPercent":33.3,"windowMinutes":-5,"reset_at":1788000000.25}"#,
    ));
    assert_eq!(value.used_percent, double(33.3));
    assert_eq!(value.remaining_percent, double(100.0 - 33.3));
    assert_eq!(value.window_duration_mins, Some(0));
    assert_eq!(value.resets_at_ms, Some(1_788_000_000_250));
}

#[test]
fn a_reset_in_the_past_of_all_time_is_unknown() {
    assert_eq!(normalize_window(&json(r#"{"resetsAt":0}"#)).resets_at_ms, None);
    assert_eq!(normalize_window(&json(r#"{"resetsAt":-5}"#)).resets_at_ms, None);
    assert_eq!(
        normalize_window(&json(r#"{"resetsAt":1e300}"#)).resets_at_ms,
        Some(i64::MAX)
    );
}

#[test]
fn first_spelling_is_read_first() {
    let value = normalize_window(&json(r#"{"used_percent":10,"usedPercent":90}"#));
    assert_eq!(value.used_percent, double(90.0));
    let other = normalize_window(&json(r#"{"used_percent":10,"usedPercent":"x"}"#));
    assert_eq!(other.used_percent, double(10.0));
}

#[test]
fn windows_are_found_in_order() {
    let mut found = vec![lasting(1)];
    find_windows(
        &json(
            r#"[{"used_percent":1,"z":{"usedPercent":2},"rate_limits":{"primary":{"used_percent":3},"secondary":{}}}]"#,
        ),
        &mut found,
    );
    let used: Vec<Option<Binary64>> = found.iter().map(|window| window.used_percent).collect();
    assert_eq!(
        used,
        vec![
            None,
            double(3.0),
            None,
            double(1.0),
            double(3.0),
            double(2.0)
        ]
    );
}

#[test]
fn tolerances_of_the_classes() {
    let kind = |minutes: u64| {
        classify_windows(vec![lasting(minutes)], "session", 7).map(|snapshot| {
            match (snapshot.five_hour, snapshot.long_window) {
                (Some(window), None) => window.kind,
                (None, Some(window)) => window.kind,
                _ => unreachable!(),
            }
        })
    };
    assert_eq!(kind(294), None);
    assert_eq!(kind(295).as_deref(), Some("five-hour"));
    assert_eq!(kind(305).as_deref(), Some("five-hour"));
    assert_eq!(kind(306).as_deref(), Some("long-window"));
    assert_eq!(kind(10069).as_deref(), Some("long-window"));
    assert_eq!(kind(10070).as_deref(), Some("weekly"));
    assert_eq!(kind(10090).as_deref(), Some("weekly"));
    assert_eq!(kind(10091).as_deref(), Some("long-window"));
}

#[test]
fn last_five_hour_and_weekly_windows_win() {
    let mut windows = vec![lasting(1440), lasting(300), lasting(10080), lasting(2000), lasting(301)];
    let snapshot = classify_windows(windows.clone(), "app-server", 5).unwrap();
    assert_eq!(snapshot.five_hour.unwrap().window_duration_mins, Some(301));
    assert_eq!(snapshot.long_window.unwrap().window_duration_mins, Some(10080));
    assert_eq!(snapshot.source, "app-server");
    assert_eq!(snapshot.observed_at_ms, Some(5));
    assert_eq!(snapshot.received_at_ms, Some(5));
    assert_eq!(snapshot.source_file, None);
    windows.remove(2);
    let without_week = classify_windows(windows, "app-server", 5).unwrap();
    assert_eq!(without_week.long_window.unwrap().window_duration_mins, Some(1440));
}

#[test]
fn a_response_without_a_result_has_no_quota() {
    assert!(parse_app_server_response(&json(r#"{"id":1}"#), 1).is_none());
    assert_eq!(app_server_bucket_source(&json(r#"{"id":1}"#)), None);
    assert_eq!(app_server_bucket_source(&json(r#"{"result":{}}"#)), None);
    assert_eq!(
        app_server_bucket_source(&json(r#"{"result":{"rateLimits":{"limitId":"other"}}}"#)),
        None
    );
}

#[test]
fn a_bucket_by_identifier_hides_the_general_limits() {
    let response = json(
        r#"{"result":{"rateLimits":{"primary":{"usedPercent":25,"windowDurationMins":300}},"rateLimitsByLimitId":{"codex":{}}}}"#,
    );
    assert!(parse_app_server_response(&response, 99).is_none());
    assert_eq!(app_server_bucket_source(&response), Some("rateLimitsByLimitId.codex"));
}
