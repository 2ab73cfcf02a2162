//! Settings, the cached snapshot, and how files are replaced without losing their contents.

use crate::binary64;
use crate::binary64::{Binary64, HALF, ONE};
use crate::quota;
use crate::quota::QuotaSnapshot;
use crate::text;
use crate::text::{same_text, trim_text};
use vstd::prelude::*;

verus! {

/// The bit pattern of 0.1.
pub const TENTH: u64 = 0x3fb9_9999_9999_999a;

/// The bit pattern of 0.2.
pub const FIFTH: u64 = 0x3fc9_9999_9999_999a;

/// The user's settings.
#[derive(Debug, PartialEq, Eq)]
pub struct AppSettings {
    pub window_opacity: Binary64,
    pub background_opacity: Binary64,
    pub text_opacity: Binary64,
    pub animations_enabled: bool,
    pub language: String,
    pub always_on_top: bool,
    pub theme: String,
    pub start_with_windows: bool,
    pub start_minimized: bool,
    pub close_to_tray: bool,
    pub refresh_interval_seconds: u64,
    pub custom_session_path: Option<String>,
}

/// What settings hold.
pub struct AppSettingsView {
    pub window_opacity: Binary64,
    pub background_opacity: Binary64,
    pub text_opacity: Binary64,
    pub animations_enabled: bool,
    pub language: Seq<char>,
    pub always_on_top: bool,
    pub theme: Seq<char>,
    pub start_with_windows: bool,
    pub start_minimized: bool,
    pub close_to_tray: bool,
    pub refresh_interval_seconds: u64,
    pub custom_session_path: Option<Seq<char>>,
}

impl View for AppSettings {
    type V = AppSettingsView;

    open spec fn view(&self) -> AppSettingsView {
        AppSettingsView {
            window_opacity: self.window_opacity,
            background_opacity: self.background_opacity,
            text_opacity: self.text_opacity,
            animations_enabled: self.animations_enabled,
            language: self.language@,
            always_on_top: self.always_on_top,
            theme: self.theme@,
            start_with_windows: self.start_with_windows,
            start_minimized: self.start_minimized,
            close_to_tray: self.close_to_tray,
            refresh_interval_seconds: self.refresh_interval_seconds,
            custom_session_path: quota::text_view(self.custom_session_path),
        }
    }
}

/// The settings of a new installation.
pub open spec fn default_settings() -> AppSettingsView {
    AppSettingsView {
        window_opacity: Binary64 { bits: ONE },
        background_opacity: Binary64 { bits: ONE },
        text_opacity: Binary64 { bits: ONE },
        animations_enabled: true,
        language: "en"@,
        always_on_top: false,
        theme: "system"@,
        start_with_windows: false,
        start_minimized: false,
        close_to_tray: true,
        refresh_interval_seconds: 30,
        custom_session_path: None,
    }
}

impl Default for AppSettings {
    fn default() -> (settings: AppSettings)
        ensures
            settings@ == default_settings(),
    {
        AppSettings {
            window_opacity: Binary64 { bits: ONE },
            background_opacity: Binary64 { bits: ONE },
            text_opacity: Binary64 { bits: ONE },
            animations_enabled: true,
            language: "en".to_owned(),
            always_on_top: false,
            theme: "system".to_owned(),
            start_with_windows: false,
            start_minimized: false,
            close_to_tray: true,
            refresh_interval_seconds: 30,
            custom_session_path: None,
        }
    }
}

impl Clone for AppSettings {
    fn clone(&self) -> (copy: AppSettings)
        ensures
            copy == *self,
    {
        AppSettings {
            window_opacity: self.window_opacity,
            background_opacity: self.background_opacity,
            text_opacity: self.text_opacity,
            animations_enabled: self.animations_enabled,
            language: self.language.clone(),
            always_on_top: self.always_on_top,
            theme: self.theme.clone(),
            start_with_windows: self.start_with_windows,
            start_minimized: self.start_minimized,
            close_to_tray: self.close_to_tray,
            refresh_interval_seconds: self.refresh_interval_seconds,
            custom_session_path: match &self.custom_session_path {
                Some(path) => Some(path.clone()),
                None => None,
            },
        }
    }
}

/// Settings that know only one opacity: it is then meant for background and text.
pub open spec fn single_opacity(settings: AppSettingsView) -> bool {
    let one = Binary64 { bits: ONE };
    &&& settings.background_opacity.same(one)
    &&& settings.text_opacity.same(one)
    &&& settings.window_opacity.clamped(Binary64 { bits: HALF }, one).below(one)
}

/// A theme that exists; another one is replaced by that of the system.
pub open spec fn known_theme(theme: Seq<char>) -> Seq<char> {
    if theme == "dark"@ || theme == "light"@ || theme == "glass"@ {
        theme
    } else {
        "system"@
    }
}

/// A language that exists; another one is replaced by English.
pub open spec fn known_language(language: Seq<char>) -> Seq<char> {
    if language == "zh-CN"@ {
        language
    } else {
        "en"@
    }
}

/// A path without white space around it; a blank one is none.
pub open spec fn known_path(path: Option<Seq<char>>) -> Option<Seq<char>> {
    match path {
        Some(path) if text::trimmed(path).len() > 0 => Some(text::trimmed(path)),
        _ => None,
    }
}

/// Settings with every value brought into its range.
pub open spec fn sanitized(settings: AppSettingsView) -> AppSettingsView {
    let one = Binary64 { bits: ONE };
    let window = settings.window_opacity.clamped(Binary64 { bits: HALF }, one);
    let background = if single_opacity(settings) {
        window
    } else {
        settings.background_opacity
    };
    let letters = if single_opacity(settings) {
        window
    } else {
        settings.text_opacity
    };
    AppSettingsView {
        window_opacity: one,
        background_opacity: background.clamped(Binary64 { bits: TENTH }, one),
        text_opacity: letters.clamped(Binary64 { bits: FIFTH }, one),
        refresh_interval_seconds: if settings.refresh_interval_seconds < 15 {
            15
        } else if settings.refresh_interval_seconds > 600 {
            600
        } else {
            settings.refresh_interval_seconds
        },
        custom_session_path: known_path(settings.custom_session_path),
        theme: known_theme(settings.theme),
        language: known_language(settings.language),
        ..settings
    }
}

impl AppSettings {
    /// Brings every value into its range.
    pub fn sanitize(self) -> (settings: AppSettings)
        ensures
            settings@ == sanitized(self@),
    {
        let one: Binary64 = Binary64 { bits: ONE };
        let mut settings: AppSettings = self;
        let window: Binary64 = settings.window_opacity.clamp(Binary64 { bits: HALF }, one);
        if settings.background_opacity.is_same(one) && settings.text_opacity.is_same(one)
            && window.is_below(one) {
            settings.background_opacity = window;
            settings.text_opacity = window;
        }
        settings.background_opacity =
            settings.background_opacity.clamp(Binary64 { bits: TENTH }, one);
        settings.text_opacity = settings.text_opacity.clamp(Binary64 { bits: FIFTH }, one);
        settings.window_opacity = one;
        if settings.refresh_interval_seconds < 15 {
            settings.refresh_interval_seconds = 15;
        } else if settings.refresh_interval_seconds > 600 {
            settings.refresh_interval_seconds = 600;
        }
        settings.custom_session_path = match settings.custom_session_path {
            Some(path) => {
                let trimmed: String = trim_text(path.as_str());
                if trimmed.as_str().is_empty() {
                    None
                } else {
                    Some(trimmed)
                }
            },
            None => None,
        };
        let theme: &str = settings.theme.as_str();
        if !same_text(theme, "system") && !same_text(theme, "dark") && !same_text(theme, "light")
            && !same_text(theme, "glass") {
            settings.theme = "system".to_owned();
        }
        let language: &str = settings.language.as_str();
        if !same_text(language, "en") && !same_text(language, "zh-CN") {
            settings.language = "en".to_owned();
        }
        settings
    }
}

/// The settings in force: those that were read, or else the defaults, brought into range.
pub open spec fn loaded_settings(read: Option<AppSettingsView>) -> AppSettingsView {
    match read {
        Some(settings) => sanitized(settings),
        None => sanitized(default_settings()),
    }
}

/// Takes the settings that were read, if the file was there and made sense.
pub fn load_settings(read: Option<AppSettings>) -> (settings: AppSettings)
    ensures
        settings@ == loaded_settings(
            match read {
                Some(settings) => Some(settings@),
                None => None,
            },
        ),
{
    match read {
        Some(settings) => settings.sanitize(),
        None => AppSettings::default().sanitize(),
    }
}

proof fn lemma_opacity_limits()
    ensures
        !(Binary64 { bits: ONE }).below(Binary64 { bits: HALF }),
        !(Binary64 { bits: ONE }).below(Binary64 { bits: TENTH }),
        !(Binary64 { bits: ONE }).below(Binary64 { bits: FIFTH }),
        !(Binary64 { bits: TENTH }).nan(),
        !(Binary64 { bits: FIFTH }).nan(),
        !(Binary64 { bits: ONE }).nan(),
{
    binary64::lemma_positive_order(Binary64 { bits: HALF }, Binary64 { bits: ONE });
    binary64::lemma_positive_order(Binary64 { bits: TENTH }, Binary64 { bits: ONE });
    binary64::lemma_positive_order(Binary64 { bits: FIFTH }, Binary64 { bits: ONE });
}

/// Settings in range are not changed.
pub proof fn law_sanitizing_twice_changes_nothing(settings: AppSettingsView)
    ensures
        sanitized(sanitized(settings)) == sanitized(settings),
{
    lemma_opacity_limits();
    let once = sanitized(settings);
    assert(!single_opacity(once));
    if let Some(path) = settings.custom_session_path {
        text::lemma_trimmed_twice(path);
    }
}

/// What comes out of sanitizing is in range: opacities from a tenth (for text a fifth) to one
/// unless they are no numbers, the interval from 15 to 600 seconds, a theme and a language that
/// exist, and no blank path.
pub proof fn law_sanitized_settings_are_in_range(settings: AppSettingsView)
    ensures
        ({
            let result = sanitized(settings);
            let one = Binary64 { bits: ONE };
            &&& result.window_opacity == one
            &&& !result.background_opacity.below(Binary64 { bits: TENTH })
            &&& !one.below(result.background_opacity)
            &&& !result.text_opacity.below(Binary64 { bits: FIFTH })
            &&& !one.below(result.text_opacity)
            &&& 15 <= result.refresh_interval_seconds <= 600
            &&& (result.theme == "system"@ || result.theme == "dark"@ || result.theme == "light"@
                || result.theme == "glass"@)
            &&& (result.language == "en"@ || result.language == "zh-CN"@)
            &&& (result.custom_session_path matches Some(path) ==> path.len() > 0
                && text::trimmed(path) == path)
        }),
{
    lemma_opacity_limits();
    if let Some(path) = settings.custom_session_path {
        text::lemma_trimmed_twice(path);
    }
}

/// The settings in force at the start are in range, whatever was read.
pub proof fn law_loaded_settings_are_in_range(read: Option<AppSettingsView>)
    ensures
        sanitized(loaded_settings(read)) == loaded_settings(read),
{
    match read {
        Some(settings) => law_sanitizing_twice_changes_nothing(settings),
        None => law_sanitizing_twice_changes_nothing(default_settings()),
    }
}

/// The settings of a new installation are in range.
pub proof fn law_defaults_are_in_range()
    ensures
        sanitized(default_settings()) == default_settings(),
{
    lemma_opacity_limits();
    binary64::lemma_half_and_one();
}

/// A snapshot as it is kept in the cache file.
#[derive(Debug, PartialEq, Eq)]
pub struct CacheFile {
    pub schema_version: u32,
    pub snapshot: QuotaSnapshot,
    pub cached_at: i64,
}

/// The version of the cache file's schema.
pub const SCHEMA_VERSION: u32 = 1;

/// A cache file holds a snapshot, with the time at which it was saved.
pub open spec fn caches(cache: CacheFile, snapshot: quota::QuotaSnapshotView, now_ms: i64) -> bool {
    &&& cache.schema_version == SCHEMA_VERSION
    &&& cache.snapshot@ == snapshot
    &&& cache.cached_at == now_ms
}

/// What the cache file holds of a snapshot.
pub fn save_cache(snapshot: &QuotaSnapshot, now_ms: i64) -> (cache: CacheFile)
    ensures
        caches(cache, snapshot@, now_ms),
        cache.schema_version == SCHEMA_VERSION,
        cache.snapshot@ == snapshot@,
        cache.cached_at == now_ms,
{
    CacheFile { schema_version: SCHEMA_VERSION, snapshot: snapshot.clone(), cached_at: now_ms }
}

/// The snapshot in a cache file of the right version, marked as coming from the cache.
pub open spec fn cached_snapshot(version: u32, snapshot: quota::QuotaSnapshotView) -> Option<
    quota::QuotaSnapshotView,
> {
    if version == SCHEMA_VERSION {
        Some(quota::QuotaSnapshotView { source: "cache"@, ..snapshot })
    } else {
        None
    }
}

/// Takes the cache file that was read, if it was there and made sense.
pub fn load_cache(read: Option<CacheFile>) -> (snapshot: Option<QuotaSnapshot>)
    ensures
        quota::snapshot_view(snapshot) == (match read {
            Some(cache) => cached_snapshot(cache.schema_version, cache.snapshot@),
            None => None,
        }),
{
    match read {
        Some(cache) => {
            if cache.schema_version != SCHEMA_VERSION {
                return None;
            }
            let mut snapshot: QuotaSnapshot = cache.snapshot;
            snapshot.source = "cache".to_owned();
            Some(snapshot)
        },
        None => None,
    }
}

/// What is read from the cache is what was saved, but for its source.
pub proof fn law_cache_gives_back_what_was_saved(cache: CacheFile, snapshot: quota::QuotaSnapshotView)
    requires
        cache.schema_version == SCHEMA_VERSION,
        cache.snapshot@ == snapshot,
    ensures
        cached_snapshot(cache.schema_version, cache.snapshot@) == Some(
            quota::QuotaSnapshotView { source: "cache"@, ..snapshot },
        ),
{
}

/// The steps in which a file is replaced. The new contents go to a temporary file beside it; the
/// old file is kept as a backup until the new one stands in its place.
#[derive(Clone, Copy, Debug, PartialEq, Eq, Structural)]
pub enum WriteStep {
    /// Create the directory of the file.
    CreateParent,
    /// Create the temporary file with the new contents and bring it to the disk.
    WriteTemp,
    /// See whether the file exists.
    CheckTarget,
    /// Rename the temporary file to the file, which does not exist.
    PlaceTemp,
    /// See whether a backup exists.
    CheckBackup,
    /// Remove the backup of an earlier replacement.
    RemoveBackup,
    /// Rename the file to the backup.
    KeepTarget,
    /// Rename the temporary file to the file, whose old contents are in the backup.
    ReplaceTarget,
    /// Remove the backup, if possible.
    DropBackup,
    /// Rename the backup to the file, if possible.
    RestoreTarget,
    Done,
    Failed,
}

/// What came of a step. Looking whether a file exists succeeds in any case.
pub enum Outcome {
    Done,
    Exists(bool),
    Failed(String),
}

/// The step after a step, given what came of it.
pub open spec fn next_step(step: WriteStep, outcome: Outcome) -> WriteStep {
    match step {
        WriteStep::CreateParent => if outcome is Failed {
            WriteStep::Failed
        } else {
            WriteStep::WriteTemp
        },
        WriteStep::WriteTemp => if outcome is Failed {
            WriteStep::Failed
        } else {
            WriteStep::CheckTarget
        },
        WriteStep::CheckTarget => if outcome == Outcome::Exists(true) {
            WriteStep::CheckBackup
        } else {
            WriteStep::PlaceTemp
        },
        WriteStep::PlaceTemp => if outcome is Failed {
            WriteStep::Failed
        } else {
            WriteStep::Done
        },
        WriteStep::CheckBackup => if outcome == Outcome::Exists(true) {
            WriteStep::RemoveBackup
        } else {
            WriteStep::KeepTarget
        },
        WriteStep::RemoveBackup => if outcome is Failed {
            WriteStep::Failed
        } else {
            WriteStep::KeepTarget
        },
        WriteStep::KeepTarget => if outcome is Failed {
            WriteStep::Failed
        } else {
            WriteStep::ReplaceTarget
        },
        WriteStep::ReplaceTarget => if outcome is Failed {
            WriteStep::RestoreTarget
        } else {
            WriteStep::DropBackup
        },
        WriteStep::DropBackup => WriteStep::Done,
        WriteStep::RestoreTarget => WriteStep::Failed,
        WriteStep::Done => WriteStep::Done,
        WriteStep::Failed => WriteStep::Failed,
    }
}

/// The error of a replacement: that of the step that failed, but not of clearing up afterwards.
pub open spec fn next_error(
    step: WriteStep,
    outcome: Outcome,
    error: Option<Seq<char>>,
) -> Option<Seq<char>> {
    match outcome {
        Outcome::Failed(reason) => if step == WriteStep::CreateParent || step
            == WriteStep::WriteTemp || step == WriteStep::PlaceTemp || step
            == WriteStep::RemoveBackup || step == WriteStep::KeepTarget || step
            == WriteStep::ReplaceTarget {
            Some(reason@)
        } else {
            error
        },
        _ => error,
    }
}

/// The replacement of a file.
pub struct AtomicWrite {
    pub step: WriteStep,
    pub error: Option<String>,
}

/// The step with which a replacement starts.
pub open spec fn first_step(has_parent: bool) -> WriteStep {
    if has_parent {
        WriteStep::CreateParent
    } else {
        WriteStep::WriteTemp
    }
}

impl AtomicWrite {
    /// Starts to replace a file, which is in a directory that has to exist, or in none.
    pub fn new(has_parent: bool) -> (write: AtomicWrite)
        ensures
            write.step == first_step(has_parent),
            write.step == if has_parent {
                WriteStep::CreateParent
            } else {
                WriteStep::WriteTemp
            },
            write.error is None,
    {
        AtomicWrite {
            step: if has_parent {
                WriteStep::CreateParent
            } else {
                WriteStep::WriteTemp
            },
            error: None,
        }
    }

    fn note(&mut self, outcome: Outcome) -> (failed: bool)
        ensures
            failed == (outcome is Failed),
            final(self).step == old(self).step,
            quota::text_view(final(self).error) == (match outcome {
                Outcome::Failed(reason) => Some(reason@),
                _ => quota::text_view(old(self).error),
            }),
    {
        match outcome {
            Outcome::Failed(reason) => {
                self.error = Some(reason);
                true
            },
            _ => false,
        }
    }

    /// Takes what came of the current step.
    pub fn advance(&mut self, outcome: Outcome)
        ensures
            final(self).step == next_step(old(self).step, outcome),
            quota::text_view(final(self).error) == next_error(
                old(self).step,
                outcome,
                quota::text_view(old(self).error),
            ),
    {
        match self.step {
            WriteStep::CreateParent => {
                self.step = if self.note(outcome) {
                    WriteStep::Failed
                } else {
                    WriteStep::WriteTemp
                };
            },
            WriteStep::WriteTemp => {
                self.step = if self.note(outcome) {
                    WriteStep::Failed
                } else {
                    WriteStep::CheckTarget
                };
            },
            WriteStep::CheckTarget => {
                self.step = match outcome {
                    Outcome::Exists(true) => WriteStep::CheckBackup,
                    _ => WriteStep::PlaceTemp,
                };
            },
            WriteStep::PlaceTemp => {
                self.step = if self.note(outcome) {
                    WriteStep::Failed
                } else {
                    WriteStep::Done
                };
            },
            WriteStep::CheckBackup => {
                self.step = match outcome {
                    Outcome::Exists(true) => WriteStep::RemoveBackup,
                    _ => WriteStep::KeepTarget,
                };
            },
            WriteStep::RemoveBackup => {
                self.step = if self.note(outcome) {
                    WriteStep::Failed
                } else {
                    WriteStep::KeepTarget
                };
            },
            WriteStep::KeepTarget => {
                self.step = if self.note(outcome) {
                    WriteStep::Failed
                } else {
                    WriteStep::ReplaceTarget
                };
            },
            WriteStep::ReplaceTarget => {
                self.step = if self.note(outcome) {
                    WriteStep::RestoreTarget
                } else {
                    WriteStep::DropBackup
                };
            },
            WriteStep::DropBackup => {
                self.step = WriteStep::Done;
            },
            WriteStep::RestoreTarget => {
                self.step = WriteStep::Failed;
            },
            WriteStep::Done => {},
            WriteStep::Failed => {},
        }
    }
}

/// The contents of the file, the temporary file and the backup, where they exist.
pub struct Disk {
    pub target: Option<Seq<u8>>,
    pub temp: Option<Seq<u8>>,
    pub backup: Option<Seq<u8>>,
}

/// What a step may do to the disk. A rename or removal that fails changes nothing; writing the
/// temporary file may leave anything there when it fails.
pub open spec fn step_effect(
    step: WriteStep,
    data: Seq<u8>,
    before: Disk,
    outcome: Outcome,
    after: Disk,
) -> bool {
    match step {
        WriteStep::WriteTemp => {
            &&& after == Disk { temp: after.temp, ..before }
            &&& outcome !is Failed ==> after.temp == Some(data)
        },
        WriteStep::CheckTarget => after == before && outcome == Outcome::Exists(
            before.target is Some,
        ),
        WriteStep::CheckBackup => after == before && outcome == Outcome::Exists(
            before.backup is Some,
        ),
        WriteStep::PlaceTemp | WriteStep::ReplaceTarget => after == if outcome is Failed {
            before
        } else {
            Disk { target: before.temp, temp: None, ..before }
        },
        WriteStep::RemoveBackup | WriteStep::DropBackup => after == if outcome is Failed {
            before
        } else {
            Disk { backup: None, ..before }
        },
        WriteStep::KeepTarget => after == if outcome is Failed {
            before
        } else {
            Disk { target: None, backup: before.target, ..before }
        },
        WriteStep::RestoreTarget => after == if outcome is Failed {
            before
        } else {
            Disk { target: before.backup, backup: None, ..before }
        },
        WriteStep::CreateParent | WriteStep::Done | WriteStep::Failed => after == before,
    }
}

/// What holds of the disk before each step, given the old contents of the file, if it existed.
pub open spec fn write_invariant(
    step: WriteStep,
    data: Seq<u8>,
    old_contents: Option<Seq<u8>>,
    disk: Disk,
) -> bool {
    match step {
        WriteStep::CreateParent | WriteStep::WriteTemp => disk.target == old_contents,
        WriteStep::CheckTarget => disk.target == old_contents && disk.temp == Some(data),
        WriteStep::PlaceTemp => old_contents is None && disk.target is None && disk.temp == Some(
            data,
        ),
        WriteStep::CheckBackup | WriteStep::RemoveBackup | WriteStep::KeepTarget => {
            &&& old_contents is Some
            &&& disk.target == old_contents
            &&& disk.temp == Some(data)
        },
        WriteStep::ReplaceTarget => {
            &&& old_contents is Some
            &&& disk.target is None
            &&& disk.temp == Some(data)
            &&& disk.backup == old_contents
        },
        WriteStep::RestoreTarget => {
            &&& old_contents is Some
            &&& disk.target is None
            &&& disk.backup == old_contents
        },
        WriteStep::DropBackup | WriteStep::Done => disk.target == Some(data) && disk.temp is None,
        WriteStep::Failed => {
            ||| disk.target == old_contents
            ||| disk.target is None && disk.backup == old_contents
        },
    }
}

/// Every step, whatever comes of it, keeps what holds of the disk.
pub proof fn law_write_invariant_is_kept(
    step: WriteStep,
    data: Seq<u8>,
    old_contents: Option<Seq<u8>>,
    before: Disk,
    outcome: Outcome,
    after: Disk,
)
    requires
        write_invariant(step, data, old_contents, before),
        step_effect(step, data, before, outcome, after),
    ensures
        write_invariant(next_step(step, outcome), data, old_contents, after),
{
}

/// How many steps a replacement can still take.
pub open spec fn steps_left(step: WriteStep) -> nat {
    match step {
        WriteStep::CreateParent => 8,
        WriteStep::WriteTemp => 7,
        WriteStep::CheckTarget => 6,
        WriteStep::CheckBackup => 5,
        WriteStep::RemoveBackup => 4,
        WriteStep::KeepTarget => 3,
        WriteStep::ReplaceTarget => 2,
        WriteStep::PlaceTemp | WriteStep::DropBackup | WriteStep::RestoreTarget => 1,
        WriteStep::Done | WriteStep::Failed => 0,
    }
}

/// A replacement comes to an end.
pub proof fn law_replacement_ends(step: WriteStep, outcome: Outcome)
    ensures
        step == WriteStep::Done || step == WriteStep::Failed || steps_left(
            next_step(step, outcome),
        ) < steps_left(step),
{
}

/// A replacement that fails says why, and one that does not has no error.
pub proof fn law_failures_are_reported(
    step: WriteStep,
    outcome: Outcome,
    error: Option<Seq<char>>,
)
    requires
        error is Some <==> step == WriteStep::Failed || step == WriteStep::RestoreTarget,
    ensures
        next_error(step, outcome, error) is Some <==> next_step(step, outcome) == WriteStep::Failed
            || next_step(step, outcome) == WriteStep::RestoreTarget,
{
}

/// At no step is the file lost: its old contents are in the file or in the backup, or the new
/// contents are in the file. Once it is done the new contents are, and no temporary file is left.
pub proof fn law_contents_are_never_lost(
    step: WriteStep,
    data: Seq<u8>,
    old_contents: Option<Seq<u8>>,
    disk: Disk,
)
    requires
        write_invariant(step, data, old_contents, disk),
    ensures
        disk.target == old_contents || disk.backup == old_contents || disk.target == Some(data),
        step == WriteStep::Done ==> disk.target == Some(data) && disk.temp is None,
{
}

/// An interval from 15 to 600 seconds is kept; a shorter one becomes 15 seconds, a longer one 600.
pub proof fn law_intervals_in_range_are_kept(settings: AppSettingsView)
    ensures
        15 <= settings.refresh_interval_seconds <= 600 ==> sanitized(
            settings,
        ).refresh_interval_seconds == settings.refresh_interval_seconds,
        settings.refresh_interval_seconds < 15 ==> sanitized(settings).refresh_interval_seconds
            == 15,
        settings.refresh_interval_seconds > 600 ==> sanitized(settings).refresh_interval_seconds
            == 600,
{
}

/// The four themes and the two languages are kept; any other becomes that of the system, or
/// English.
pub proof fn law_themes_and_languages_are_kept(settings: AppSettingsView)
    ensures
        settings.theme == "system"@ || settings.theme == "dark"@ || settings.theme == "light"@
            || settings.theme == "glass"@ ==> sanitized(settings).theme == settings.theme,
        settings.theme != "system"@ && settings.theme != "dark"@ && settings.theme != "light"@
            && settings.theme != "glass"@ ==> sanitized(settings).theme == "system"@,
        settings.language == "en"@ || settings.language == "zh-CN"@ ==> sanitized(settings).language
            == settings.language,
        settings.language != "en"@ && settings.language != "zh-CN"@ ==> sanitized(settings).language
            == "en"@,
{
}

/// A path loses the white space around it, and nothing else; one of white space alone is none, as
/// a missing one is.
pub proof fn law_paths_are_trimmed(
    settings: AppSettingsView,
    front: Seq<char>,
    path: Seq<char>,
    back: Seq<char>,
)
    requires
        forall|i: int| 0 <= i < front.len() ==> text::white_space(#[trigger] front[i]),
        forall|i: int| 0 <= i < back.len() ==> text::white_space(#[trigger] back[i]),
        path.len() > 0 ==> !text::white_space(path[0]) && !text::white_space(path.last()),
    ensures
        settings.custom_session_path is None ==> sanitized(settings).custom_session_path is None,
        settings.custom_session_path == Some(front + path + back) ==> sanitized(
            settings,
        ).custom_session_path == (if path.len() > 0 {
            Some(path)
        } else {
            None
        }),
{
    text::lemma_trimmed_parts(front, path, back);
}

/// The switches are the user's alone.
pub proof fn law_switches_are_kept(settings: AppSettingsView)
    ensures
        sanitized(settings).animations_enabled == settings.animations_enabled,
        sanitized(settings).always_on_top == settings.always_on_top,
        sanitized(settings).start_with_windows == settings.start_with_windows,
        sanitized(settings).start_minimized == settings.start_minimized,
        sanitized(settings).close_to_tray == settings.close_to_tray,
{
}

/// An opacity within limits is kept; another becomes the nearer limit, and what is no number stays
/// none.
pub open spec fn kept_within(before: Binary64, low: u64, after: Binary64) -> bool {
    let least = Binary64 { bits: low };
    let most = Binary64 { bits: ONE };
    &&& before.nan() || least.units() <= before.units() <= most.units() ==> after == before
    &&& !before.nan() && before.units() < least.units() ==> after == least
    &&& !before.nan() && before.units() > most.units() ==> after == most
}

/// The opacities of background and text are kept within their limits, each for itself, a tenth and
/// a fifth to one, and the window is opaque. Only where both are one does an opacity of the window
/// below one take their place, as one of at least a half.
pub proof fn law_opacities_are_kept(settings: AppSettingsView)
    ensures
        ({
            let result = sanitized(settings);
            let one = Binary64 { bits: ONE };
            let half = Binary64 { bits: HALF };
            let both_one = !settings.background_opacity.nan() && !settings.text_opacity.nan()
                && settings.background_opacity.units() == one.units()
                && settings.text_opacity.units() == one.units();
            let window = settings.window_opacity;
            &&& result.window_opacity == one
            &&& !both_one || window.nan() || window.units() >= one.units() ==> {
                &&& kept_within(settings.background_opacity, TENTH, result.background_opacity)
                &&& kept_within(settings.text_opacity, FIFTH, result.text_opacity)
            }
            &&& both_one && !window.nan() && half.units() <= window.units() < one.units() ==> {
                &&& result.background_opacity == window
                &&& result.text_opacity == window
            }
            &&& both_one && !window.nan() && window.units() < half.units() ==> {
                &&& result.background_opacity == half
                &&& result.text_opacity == half
            }
        }),
{
    lemma_opacity_limits();
    binary64::lemma_half_and_one();
    binary64::lemma_positive_order(Binary64 { bits: TENTH }, Binary64 { bits: FIFTH });
    binary64::lemma_positive_order(Binary64 { bits: FIFTH }, Binary64 { bits: HALF });
    binary64::lemma_positive_order(Binary64 { bits: HALF }, Binary64 { bits: ONE });
}

/// The settings of a new installation: opaque, animated, in English, in the theme of the system,
/// closing to the tray, refreshed twice a minute from the usual place, and nothing else switched on.
pub proof fn law_settings_of_a_new_installation()
    ensures
        ({
            let settings = default_settings();
            &&& settings.window_opacity == Binary64 { bits: ONE }
            &&& settings.background_opacity == Binary64 { bits: ONE }
            &&& settings.text_opacity == Binary64 { bits: ONE }
            &&& settings.animations_enabled
            &&& settings.language == "en"@
            &&& !settings.always_on_top
            &&& settings.theme == "system"@
            &&& !settings.start_with_windows
            &&& !settings.start_minimized
            &&& settings.close_to_tray
            &&& settings.refresh_interval_seconds == 30
            &&& settings.custom_session_path is None
        }),
        loaded_settings(None) == default_settings(),
{
    law_defaults_are_in_range();
}

/// Settings that were read are brought into range, and are otherwise those that were read.
pub proof fn law_read_settings_are_in_force(read: AppSettingsView)
    ensures
        loaded_settings(Some(read)) == sanitized(read),
        sanitized(read) == read ==> loaded_settings(Some(read)) == read,
{
}

/// A cached snapshot comes back as it is, but for its source, from a file of the first version; a
/// file of another version holds none.
pub proof fn law_the_cache_keeps_a_snapshot(version: u32, snapshot: quota::QuotaSnapshotView)
    ensures
        version != 1 ==> cached_snapshot(version, snapshot) is None,
        version == 1 ==> (cached_snapshot(version, snapshot) matches Some(back) && {
            &&& back.source == "cache"@
            &&& back.five_hour == snapshot.five_hour
            &&& back.long_window == snapshot.long_window
            &&& back.observed_at_ms == snapshot.observed_at_ms
            &&& back.received_at_ms == snapshot.received_at_ms
            &&& back.source_file == snapshot.source_file
        }),
        SCHEMA_VERSION == 1,
{
}

/// The replacement of a file, step by step, on a disk.
pub open spec fn carried_out(
    steps: Seq<WriteStep>,
    outcomes: Seq<Outcome>,
    disks: Seq<Disk>,
    data: Seq<u8>,
) -> bool {
    &&& steps.len() == outcomes.len() + 1
    &&& disks.len() == steps.len()
    &&& forall|i: int|
        0 <= i < outcomes.len() ==> step_effect(
            steps[i],
            data,
            disks[i],
            #[trigger] outcomes[i],
            disks[i + 1],
        ) && steps[i + 1] == next_step(steps[i], outcomes[i])
}

/// A replacement from the start on, whatever its steps come to: the old contents are in the file or
/// in the backup until the new ones are in the file. Once it is done the file has the new contents
/// and no temporary file is left; if it fails the old contents are in the file, or, where it could
/// not be restored, in the backup.
pub proof fn law_a_replacement_never_loses_the_file(
    steps: Seq<WriteStep>,
    outcomes: Seq<Outcome>,
    disks: Seq<Disk>,
    data: Seq<u8>,
)
    requires
        carried_out(steps, outcomes, disks, data),
        steps[0] == WriteStep::CreateParent || steps[0] == WriteStep::WriteTemp,
    ensures
        ({
            let contents = disks[0].target;
            let end = disks.last();
            &&& end.target == contents || end.backup == contents || end.target == Some(data)
            &&& steps.last() == WriteStep::Done ==> end.target == Some(data) && end.temp is None
            &&& steps.last() == WriteStep::Failed ==> end.target == contents || (end.target is None
                && end.backup == contents)
        }),
{
    lemma_invariant_at_end(steps, outcomes, disks, data);
}

proof fn lemma_invariant_at_end(
    steps: Seq<WriteStep>,
    outcomes: Seq<Outcome>,
    disks: Seq<Disk>,
    data: Seq<u8>,
)
    requires
        carried_out(steps, outcomes, disks, data),
        steps[0] == WriteStep::CreateParent || steps[0] == WriteStep::WriteTemp,
    ensures
        write_invariant(steps.last(), data, disks[0].target, disks.last()),
    decreases outcomes.len(),
{
    if outcomes.len() > 0 {
        let last = outcomes.len() - 1;
        let (s, o, d) = (steps.drop_last(), outcomes.drop_last(), disks.drop_last());
        assert forall|i: int| 0 <= i < o.len() implies step_effect(
            s[i],
            data,
            d[i],
            #[trigger] o[i],
            d[i + 1],
        ) && s[i + 1] == next_step(s[i], o[i]) by {
            assert(o[i] == outcomes[i]);
        }
        lemma_invariant_at_end(s, o, d, data);
        assert(outcomes[last] == outcomes[last]);
        law_write_invariant_is_kept(
            steps[last],
            data,
            disks[0].target,
            disks[last],
            outcomes[last],
            disks[last + 1],
        );
    }
}

/// A replacement in which no step fails comes to its end, with the directory first where there is
/// one: the file is placed where there was none, and replaced where there was one.
pub proof fn law_steps_that_succeed_lead_to_the_end(step: WriteStep, outcome: Outcome)
    ensures
        outcome !is Failed && step != WriteStep::Failed && step != WriteStep::RestoreTarget ==> {
            &&& next_step(step, outcome) != WriteStep::Failed
            &&& next_step(step, outcome) != WriteStep::RestoreTarget
        },
        next_step(WriteStep::CreateParent, Outcome::Done) == WriteStep::WriteTemp,
        next_step(WriteStep::WriteTemp, Outcome::Done) == WriteStep::CheckTarget,
        next_step(WriteStep::CheckTarget, Outcome::Exists(false)) == WriteStep::PlaceTemp,
        next_step(WriteStep::PlaceTemp, Outcome::Done) == WriteStep::Done,
        next_step(WriteStep::CheckTarget, Outcome::Exists(true)) == WriteStep::CheckBackup,
        next_step(WriteStep::CheckBackup, Outcome::Exists(true)) == WriteStep::RemoveBackup,
        next_step(WriteStep::CheckBackup, Outcome::Exists(false)) == WriteStep::KeepTarget,
        next_step(WriteStep::RemoveBackup, Outcome::Done) == WriteStep::KeepTarget,
        next_step(WriteStep::KeepTarget, Outcome::Done) == WriteStep::ReplaceTarget,
        next_step(WriteStep::ReplaceTarget, Outcome::Done) == WriteStep::DropBackup,
        next_step(WriteStep::DropBackup, outcome) == WriteStep::Done,
{
}

/// A step that fails ends the replacement, with its reason, but for clearing up: a file that could
/// not be replaced is restored first, and a backup may stay.
pub proof fn law_steps_that_fail_end_the_replacement(
    step: WriteStep,
    reason: String,
    error: Option<Seq<char>>,
)
    ensures
        ({
            let next = next_step(step, Outcome::Failed(reason));
            let told = next_error(step, Outcome::Failed(reason), error);
            &&& step == WriteStep::CreateParent || step == WriteStep::WriteTemp || step
                == WriteStep::PlaceTemp || step == WriteStep::RemoveBackup || step
                == WriteStep::KeepTarget ==> next == WriteStep::Failed && told == Some(reason@)
            &&& step == WriteStep::ReplaceTarget ==> next == WriteStep::RestoreTarget && told
                == Some(reason@)
            &&& step == WriteStep::RestoreTarget ==> next == WriteStep::Failed && told == error
            &&& step == WriteStep::DropBackup ==> next == WriteStep::Done && told == error
        }),
        forall|outcome: Outcome|
            outcome !is Failed ==> #[trigger] next_error(step, outcome, error) == error,
{
}

/// What was saved in the cache at any time is read from it as it was, but for its source.
pub proof fn law_what_is_cached_is_read_back(
    cache: CacheFile,
    snapshot: quota::QuotaSnapshotView,
    now_ms: i64,
)
    requires
        caches(cache, snapshot, now_ms),
    ensures
        cache.schema_version == 1,
        cache.cached_at == now_ms,
        cached_snapshot(cache.schema_version, cache.snapshot@) matches Some(back) && {
            &&& back.source == "cache"@
            &&& back.five_hour == snapshot.five_hour
            &&& back.long_window == snapshot.long_window
            &&& back.observed_at_ms == snapshot.observed_at_ms
            &&& back.received_at_ms == snapshot.received_at_ms
            &&& back.source_file == snapshot.source_file
        },
{
}

/// A replacement starts with the directory of the file, where it is in one, and else with the new
/// contents.
pub proof fn law_how_a_replacement_starts()
    ensures
        first_step(true) == WriteStep::CreateParent,
        first_step(false) == WriteStep::WriteTemp,
{
}

} // verus!
