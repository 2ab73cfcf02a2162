use codex_quota::binary64::Binary64;
use codex_quota::quota::QuotaSnapshot;
use codex_quota::storage::{
    load_cache, load_settings, save_cache, AppSettings, AtomicWrite, CacheFile, Outcome, WriteStep,
};

fn double(value: f64) -> Binary64 {
    Binary64 { bits: value.to_bits() }
}

#[test]
fn defaults_are_safe() {
    let value = AppSettings::default();
    assert_eq!(value.window_opacity, double(1.0));
    assert_eq!(value.refresh_interval_seconds, 30);
    assert!(value.close_to_tray);
}

#[test]
fn sanitize_clamps_limits() {
    let value = AppSettings {
        window_opacity: double(0.1),
        refresh_interval_seconds: 2,
        ..Default::default()
    }
    .sanitize();
    assert_eq!(value.window_opacity, double(1.0));
    assert_eq!(value.background_opacity, double(0.5));
    assert_eq!(value.text_opacity, double(0.5));
    assert_eq!(value.refresh_interval_seconds, 15);
}

#[test]
fn sanitize_clamps_upper_limits() {
    let value = AppSettings {
        window_opacity: double(2.0),
        refresh_interval_seconds: 9999,
        ..Default::default()
    }
    .sanitize();
    assert_eq!(value.window_opacity, double(1.0));
    assert_eq!(value.refresh_interval_seconds, 600);
}

#[test]
fn separate_opacity_limits_are_safe() {
    let value = AppSettings {
        background_opacity: double(0.01),
        text_opacity: double(0.01),
        ..Default::default()
    }
    .sanitize();
    assert_eq!(value.background_opacity, double(0.1));
    assert_eq!(value.text_opacity, double(0.2));
}

#[test]
fn sanitize_theme_and_path() {
    let value = AppSettings {
        theme: "neon".into(),
        custom_session_path: Some("  C:\\sessions  ".into()),
        ..Default::default()
    }
    .sanitize();
    assert_eq!(value.theme, "system");
    assert_eq!(value.custom_session_path.as_deref(), Some("C:\\sessions"));
}

#[test]
fn glass_theme_is_supported() {
    let value = AppSettings { theme: "glass".into(), ..Default::default() }.sanitize();
    assert_eq!(value.theme, "glass");
}

#[test]
fn blank_path_becomes_none() {
    assert!(AppSettings { custom_session_path: Some("   ".into()), ..Default::default() }
        .sanitize()
        .custom_session_path
        .is_none());
}

#[test]
fn languages_and_themes_that_exist_are_kept() {
    for (given, kept) in [("en", "en"), ("zh-CN", "zh-CN"), ("zh-cn", "en"), ("", "en")] {
        let value = AppSettings { language: given.into(), ..Default::default() }.sanitize();
        assert_eq!(value.language, kept);
    }
    for (given, kept) in [("dark", "dark"), ("light", "light"), ("Dark", "system")] {
        let value = AppSettings { theme: given.into(), ..Default::default() }.sanitize();
        assert_eq!(value.theme, kept);
    }
}

#[test]
fn white_space_of_any_script_is_trimmed() {
    let value = AppSettings {
        custom_session_path: Some("\u{a0}\u{3000}/a b\t\r\n".into()),
        ..Default::default()
    }
    .sanitize();
    assert_eq!(value.custom_session_path.as_deref(), Some("/a b"));
}

#[test]
fn sanitizing_twice_changes_nothing() {
    let once = AppSettings {
        window_opacity: double(0.7),
        background_opacity: double(f64::NAN),
        text_opacity: double(-3.0),
        custom_session_path: Some(" x ".into()),
        refresh_interval_seconds: 601,
        ..Default::default()
    }
    .sanitize();
    assert_eq!(once.background_opacity, double(f64::NAN));
    assert_eq!(once.text_opacity, double(0.2));
    assert_eq!(once.clone().sanitize(), once);
    assert_eq!(AppSettings::default().sanitize(), AppSettings::default());
}

#[test]
fn an_old_single_opacity_is_taken_over() {
    let value = AppSettings { window_opacity: double(0.75), ..Default::default() }.sanitize();
    assert_eq!(value.background_opacity, double(0.75));
    assert_eq!(value.text_opacity, double(0.75));
    let separate = AppSettings {
        window_opacity: double(0.75),
        text_opacity: double(0.9),
        ..Default::default()
    }
    .sanitize();
    assert_eq!(separate.background_opacity, double(1.0));
    assert_eq!(separate.text_opacity, double(0.9));
}

#[test]
fn settings_that_cannot_be_read_are_the_defaults() {
    assert_eq!(load_settings(None), AppSettings::default());
    let read = AppSettings { refresh_interval_seconds: 1, ..Default::default() };
    assert_eq!(load_settings(Some(read)).refresh_interval_seconds, 15);
}

#[test]
fn the_cache_gives_back_what_was_saved() {
    let snapshot = QuotaSnapshot {
        source: "session".into(),
        observed_at_ms: Some(4),
        source_file: Some("f".into()),
        ..Default::default()
    };
    let cache = save_cache(&snapshot, 12);
    assert_eq!(cache.schema_version, 1);
    assert_eq!(cache.cached_at, 12);
    let back = load_cache(Some(cache)).unwrap();
    assert_eq!(back, QuotaSnapshot { source: "cache".into(), ..snapshot });
    assert!(load_cache(None).is_none());
    let other = CacheFile { schema_version: 2, snapshot: back, cached_at: 0 };
    assert!(load_cache(Some(other)).is_none());
}

/// Runs a replacement in which the given steps fail; the steps taken, and the error.
fn replace(
    has_parent: bool,
    target: bool,
    backup: bool,
    failing: &[WriteStep],
) -> (Vec<WriteStep>, Option<String>) {
    let mut write = AtomicWrite::new(has_parent);
    let mut taken = vec![];
    while write.step != WriteStep::Done && write.step != WriteStep::Failed {
        let step = write.step;
        taken.push(step);
        let outcome = if failing.contains(&step) {
            Outcome::Failed(format!("{step:?}"))
        } else if step == WriteStep::CheckTarget {
            Outcome::Exists(target)
        } else if step == WriteStep::CheckBackup {
            Outcome::Exists(backup)
        } else {
            Outcome::Done
        };
        write.advance(outcome);
    }
    assert_eq!(write.step == WriteStep::Failed, write.error.is_some());
    (taken, write.error)
}

#[test]
fn a_new_file_is_written_beside_and_placed() {
    let (taken, error) = replace(true, false, false, &[]);
    assert_eq!(
        taken,
        vec![
            WriteStep::CreateParent,
            WriteStep::WriteTemp,
            WriteStep::CheckTarget,
            WriteStep::PlaceTemp
        ]
    );
    assert_eq!(error, None);
}

#[test]
fn an_old_file_is_kept_until_it_is_replaced() {
    let (taken, error) = replace(false, true, true, &[]);
    assert_eq!(
        taken,
        vec![
            WriteStep::WriteTemp,
            WriteStep::CheckTarget,
            WriteStep::CheckBackup,
            WriteStep::RemoveBackup,
            WriteStep::KeepTarget,
            WriteStep::ReplaceTarget,
            WriteStep::DropBackup
        ]
    );
    assert_eq!(error, None);
    let (without_backup, _) = replace(false, true, false, &[]);
    assert!(!without_backup.contains(&WriteStep::RemoveBackup));
}

#[test]
fn a_failed_replacement_restores_the_file() {
    let failing = [WriteStep::ReplaceTarget, WriteStep::RestoreTarget];
    let (taken, error) = replace(true, true, false, &failing);
    assert_eq!(taken.last(), Some(&WriteStep::RestoreTarget));
    assert_eq!(error.as_deref(), Some("ReplaceTarget"));
}

#[test]
fn a_backup_that_stays_is_no_error() {
    assert_eq!(replace(true, true, false, &[WriteStep::DropBackup]).1, None);
}

#[test]
fn every_other_failure_ends_the_replacement() {
    for step in [
        WriteStep::CreateParent,
        WriteStep::WriteTemp,
        WriteStep::PlaceTemp,
        WriteStep::RemoveBackup,
        WriteStep::KeepTarget,
    ] {
        let (taken, error) = replace(true, step != WriteStep::PlaceTemp, true, &[step]);
        assert_eq!(taken.last(), Some(&step));
        assert_eq!(error, Some(format!("{step:?}")));
    }
}
