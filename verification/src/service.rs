//! The background service: what is shown, where it comes from, and when it is refreshed.
//!
//! Points in time are nanoseconds on a clock that never goes back.

use crate::quota;
use crate::quota::{should_replace, QuotaSnapshot, QuotaWindow};
use crate::storage;
use crate::storage::AppSettings;
use crate::text;
use crate::text::{contains_lowered, contains_text, push_decimal, push_two_digits, same_text};
use vstd::prelude::*;

verus! {

/// One second.
pub const SECOND: u64 = 1_000_000_000;

/// How long after an announcement of new rate limits they are read.
pub const NOTIFICATION_DELAY: u64 = 350_000_000;

/// How far apart refreshes for changed session files are kept.
pub const WATCH_INTERVAL: u64 = 750_000_000;

/// The seconds to wait before the first, second, third and any later attempt to connect again.
pub const RECONNECT_SECONDS: [u64; 4] = [1, 3, 10, 30];

/// Why a refresh was asked for.
#[derive(Clone, Copy, Debug, PartialEq, Eq, Structural)]
pub enum RefreshReason {
    Startup,
    Manual,
    Watcher,
    Settings,
    Shutdown,
}

/// How the service is doing.
#[derive(Debug, PartialEq, Eq)]
pub struct Diagnostics {
    pub app_server_status: String,
    pub app_server_error: Option<String>,
    pub app_server_last_read_ms: Option<i64>,
    pub app_server_last_notification_ms: Option<i64>,
    pub codex_executable: String,
    pub app_server_pid: Option<u32>,
    pub app_server_initialized: bool,
    pub bucket: Option<String>,
    pub watcher_status: String,
    pub session_path: String,
    pub source: String,
}

/// What diagnostics hold.
pub struct DiagnosticsView {
    pub app_server_status: Seq<char>,
    pub app_server_error: Option<Seq<char>>,
    pub app_server_last_read_ms: Option<i64>,
    pub app_server_last_notification_ms: Option<i64>,
    pub codex_executable: Seq<char>,
    pub app_server_pid: Option<u32>,
    pub app_server_initialized: bool,
    pub bucket: Option<Seq<char>>,
    pub watcher_status: Seq<char>,
    pub session_path: Seq<char>,
    pub source: Seq<char>,
}

impl View for Diagnostics {
    type V = DiagnosticsView;

    open spec fn view(&self) -> DiagnosticsView {
        DiagnosticsView {
            app_server_status: self.app_server_status@,
            app_server_error: quota::text_view(self.app_server_error),
            app_server_last_read_ms: self.app_server_last_read_ms,
            app_server_last_notification_ms: self.app_server_last_notification_ms,
            codex_executable: self.codex_executable@,
            app_server_pid: self.app_server_pid,
            app_server_initialized: self.app_server_initialized,
            bucket: quota::text_view(self.bucket),
            watcher_status: self.watcher_status@,
            session_path: self.session_path@,
            source: self.source@,
        }
    }
}

/// Diagnostics in which nothing is known.
pub open spec fn no_diagnostics() -> DiagnosticsView {
    DiagnosticsView {
        app_server_status: Seq::empty(),
        app_server_error: None,
        app_server_last_read_ms: None,
        app_server_last_notification_ms: None,
        codex_executable: Seq::empty(),
        app_server_pid: None,
        app_server_initialized: false,
        bucket: None,
        watcher_status: Seq::empty(),
        session_path: Seq::empty(),
        source: Seq::empty(),
    }
}

impl Default for Diagnostics {
    fn default() -> (diagnostics: Diagnostics)
        ensures
            diagnostics@ == no_diagnostics(),
    {
        Diagnostics {
            app_server_status: String::new(),
            app_server_error: None,
            app_server_last_read_ms: None,
            app_server_last_notification_ms: None,
            codex_executable: String::new(),
            app_server_pid: None,
            app_server_initialized: false,
            bucket: None,
            watcher_status: String::new(),
            session_path: String::new(),
            source: String::new(),
        }
    }
}

impl Clone for Diagnostics {
    fn clone(&self) -> (copy: Diagnostics)
        ensures
            copy == *self,
    {
        Diagnostics {
            app_server_status: self.app_server_status.clone(),
            app_server_error: match &self.app_server_error {
                Some(error) => Some(error.clone()),
                None => None,
            },
            app_server_last_read_ms: self.app_server_last_read_ms,
            app_server_last_notification_ms: self.app_server_last_notification_ms,
            codex_executable: self.codex_executable.clone(),
            app_server_pid: self.app_server_pid,
            app_server_initialized: self.app_server_initialized,
            bucket: match &self.bucket {
                Some(bucket) => Some(bucket.clone()),
                None => None,
            },
            watcher_status: self.watcher_status.clone(),
            session_path: self.session_path.clone(),
            source: self.source.clone(),
        }
    }
}

/// What the application knows and shows.
#[derive(Debug)]
pub struct AppState {
    pub snapshot: Option<QuotaSnapshot>,
    pub settings: AppSettings,
    pub diagnostics: Diagnostics,
    pub stopped: bool,
}

/// What the state holds.
pub struct AppStateView {
    pub snapshot: Option<quota::QuotaSnapshotView>,
    pub settings: storage::AppSettingsView,
    pub diagnostics: DiagnosticsView,
    pub stopped: bool,
}

impl View for AppState {
    type V = AppStateView;

    open spec fn view(&self) -> AppStateView {
        AppStateView {
            snapshot: quota::snapshot_view(self.snapshot),
            settings: self.settings@,
            diagnostics: self.diagnostics@,
            stopped: self.stopped,
        }
    }
}

/// The source of what is shown.
pub open spec fn shown_source(snapshot: Option<quota::QuotaSnapshotView>) -> Seq<char> {
    match snapshot {
        Some(snapshot) => snapshot.source,
        None => "none"@,
    }
}

/// The diagnostics name the source of what is shown.
pub open spec fn source_is_named(state: AppStateView) -> bool {
    state.diagnostics.source == shown_source(state.snapshot)
}

/// A snapshot that is shown from now on, and whether it is also saved in the cache.
pub struct Update {
    pub snapshot: QuotaSnapshot,
    pub cached: bool,
}

/// What an optional update holds.
pub open spec fn update_view(update: Option<Update>) -> Option<(quota::QuotaSnapshotView, bool)> {
    match update {
        Some(update) => Some((update.snapshot@, update.cached)),
        None => None,
    }
}

/// The state once a candidate was considered.
pub open spec fn with_candidate(
    state: AppStateView,
    candidate: quota::QuotaSnapshotView,
) -> AppStateView {
    if quota::replaces(state.snapshot, candidate) {
        AppStateView {
            snapshot: Some(candidate),
            diagnostics: DiagnosticsView { source: candidate.source, ..state.diagnostics },
            ..state
        }
    } else {
        state
    }
}

/// The update that a candidate brings.
pub open spec fn candidate_update(
    state: AppStateView,
    candidate: quota::QuotaSnapshotView,
) -> Option<(quota::QuotaSnapshotView, bool)> {
    if quota::replaces(state.snapshot, candidate) {
        Some((candidate, true))
    } else {
        None
    }
}

/// A live snapshot counts as cached once its server is gone; another one stays as it is.
pub open spec fn demoted(snapshot: Option<quota::QuotaSnapshotView>) -> Option<
    quota::QuotaSnapshotView,
> {
    match snapshot {
        Some(snapshot) if snapshot.source == "app-server"@ => Some(
            quota::QuotaSnapshotView { source: "cache"@, ..snapshot },
        ),
        _ => None,
    }
}

/// The state once live data no longer counts as live.
pub open spec fn with_demotion(state: AppStateView) -> AppStateView {
    if demoted(state.snapshot) is Some {
        AppStateView {
            snapshot: demoted(state.snapshot),
            diagnostics: DiagnosticsView { source: "cache"@, ..state.diagnostics },
            ..state
        }
    } else {
        state
    }
}

/// The update that demoting brings.
pub open spec fn demotion_update(state: AppStateView) -> Option<(quota::QuotaSnapshotView, bool)> {
    match demoted(state.snapshot) {
        Some(snapshot) => Some((snapshot, false)),
        None => None,
    }
}

/// The state at the start.
pub open spec fn first_state(
    settings: storage::AppSettingsView,
    snapshot: Option<quota::QuotaSnapshotView>,
) -> AppStateView {
    AppStateView {
        snapshot,
        settings,
        diagnostics: DiagnosticsView {
            app_server_status: "starting"@,
            codex_executable: "checking"@,
            source: shown_source(snapshot),
            ..no_diagnostics()
        },
        stopped: false,
    }
}

impl AppState {
    /// The state at the start, with the snapshot of the cache, if there is one.
    pub fn new(settings: AppSettings, snapshot: Option<QuotaSnapshot>) -> (state: AppState)
        ensures
            state@ == first_state(settings@, quota::snapshot_view(snapshot)),
    {
        let source: String = match &snapshot {
            Some(snapshot) => snapshot.source.clone(),
            None => "none".to_owned(),
        };
        let mut diagnostics: Diagnostics = Diagnostics::default();
        diagnostics.app_server_status = "starting".to_owned();
        diagnostics.codex_executable = "checking".to_owned();
        diagnostics.source = source;
        AppState { snapshot, settings, diagnostics, stopped: false }
    }

    /// Shows a candidate if its source ranks high enough.
    pub fn apply_snapshot(&mut self, candidate: QuotaSnapshot) -> (update: Option<Update>)
        ensures
            final(self)@ == with_candidate(old(self)@, candidate@),
            update_view(update) == candidate_update(old(self)@, candidate@),
    {
        if !should_replace(self.snapshot.as_ref(), &candidate) {
            return None;
        }
        self.diagnostics.source = candidate.source.clone();
        self.snapshot = Some(candidate.clone());
        Some(Update { snapshot: candidate, cached: true })
    }

    /// Marks live data as cached, since its server is gone.
    pub fn demote_disconnected_live(&mut self) -> (update: Option<Update>)
        ensures
            final(self)@ == with_demotion(old(self)@),
            update_view(update) == demotion_update(old(self)@),
    {
        let shown: QuotaSnapshot = match &self.snapshot {
            Some(snapshot) => {
                if !same_text(snapshot.source.as_str(), "app-server") {
                    return None;
                }
                snapshot.clone()
            },
            None => {
                return None;
            },
        };
        let mut snapshot: QuotaSnapshot = shown;
        snapshot.source = "cache".to_owned();
        self.snapshot = Some(snapshot.clone());
        self.diagnostics.source = "cache".to_owned();
        Some(Update { snapshot, cached: false })
    }

    /// Takes the snapshot that was found in the session files, if any, and where they are.
    pub fn refresh_session(
        &mut self,
        found: Option<QuotaSnapshot>,
        session_path: String,
    ) -> (update: Option<Update>)
        ensures
            final(self)@ == with_session(old(self)@, quota::snapshot_view(found), session_path@),
            update_view(update) == session_update(old(self)@, quota::snapshot_view(found)),
    {
        let update: Option<Update> = match found {
            Some(snapshot) => self.apply_snapshot(snapshot),
            None => None,
        };
        self.diagnostics.session_path = session_path;
        update
    }

    /// Notes whether the session files are watched, and where they are.
    pub fn watcher_started(&mut self, running: bool, session_path: String)
        ensures
            final(self)@ == with_watcher(old(self)@, running, session_path@),
            final(self)@ == (AppStateView {
                diagnostics: DiagnosticsView {
                    watcher_status: if running {
                        "running"@
                    } else {
                        "unavailable"@
                    },
                    session_path: session_path@,
                    ..old(self)@.diagnostics
                },
                ..old(self)@
            }),
    {
        self.diagnostics.watcher_status = if running {
            "running".to_owned()
        } else {
            "unavailable".to_owned()
        };
        self.diagnostics.session_path = session_path;
    }

    /// Takes what came of saving settings, brought into range: they are in force only once they are
    /// saved.
    pub fn save_settings(&mut self, settings: AppSettings, saved: Result<(), String>) -> (result:
        Result<AppSettings, String>)
        ensures
            final(self)@ == with_saved(old(self)@, settings@, saved is Ok),
            match saved {
                Ok(_) => {
                    &&& final(self)@ == (AppStateView {
                        settings: storage::sanitized(settings@),
                        ..old(self)@
                    })
                    &&& result matches Ok(stored) && stored@ == storage::sanitized(settings@)
                },
                Err(error) => {
                    &&& final(self)@ == old(self)@
                    &&& result matches Err(reason) && reason@ == error@
                },
            },
    {
        match saved {
            Ok(_) => {
                let stored: AppSettings = settings.sanitize();
                self.settings = stored.clone();
                Ok(stored)
            },
            Err(error) => Err(error),
        }
    }

    pub fn mark_stopped(&mut self)
        ensures
            final(self)@ == (AppStateView { stopped: true, ..old(self)@ }),
    {
        self.stopped = true;
    }

    pub fn is_stopped(&self) -> (stopped: bool)
        ensures
            stopped == self@.stopped,
    {
        self.stopped
    }

    /// What is shown; where there is nothing to show yet, an empty snapshot without a source.
    pub fn get_quota(&self, now_ms: i64) -> (snapshot: QuotaSnapshot)
        ensures
            snapshot@ == shown_quota(self@.snapshot, now_ms),
            snapshot@ == (match self@.snapshot {
                Some(snapshot) => snapshot,
                None => quota::QuotaSnapshotView {
                    five_hour: None,
                    long_window: None,
                    source: "none"@,
                    observed_at_ms: None,
                    received_at_ms: Some(now_ms),
                    source_file: None,
                },
            }),
    {
        match &self.snapshot {
            Some(snapshot) => snapshot.clone(),
            None => {
                let mut snapshot: QuotaSnapshot = QuotaSnapshot::default();
                snapshot.source = "none".to_owned();
                snapshot.received_at_ms = Some(now_ms);
                snapshot
            },
        }
    }
}

/// The state once the session files are watched, or cannot be.
pub open spec fn with_watcher(
    state: AppStateView,
    running: bool,
    session_path: Seq<char>,
) -> AppStateView {
    AppStateView {
        diagnostics: DiagnosticsView {
            watcher_status: if running {
                "running"@
            } else {
                "unavailable"@
            },
            session_path,
            ..state.diagnostics
        },
        ..state
    }
}

/// The state once settings were saved, or could not be.
pub open spec fn with_saved(
    state: AppStateView,
    settings: storage::AppSettingsView,
    saved: bool,
) -> AppStateView {
    if saved {
        AppStateView { settings: storage::sanitized(settings), ..state }
    } else {
        state
    }
}

/// The snapshot that the user sees.
pub open spec fn shown_quota(snapshot: Option<quota::QuotaSnapshotView>, now_ms: i64) ->
    quota::QuotaSnapshotView {
    match snapshot {
        Some(snapshot) => snapshot,
        None => quota::QuotaSnapshotView {
            five_hour: None,
            long_window: None,
            source: "none"@,
            observed_at_ms: None,
            received_at_ms: Some(now_ms),
            source_file: None,
        },
    }
}

/// How long the end of the service is waited for.
pub open spec fn wait_for_the_end(stopped: bool) -> Option<u64> {
    if stopped {
        None
    } else {
        Some(1200)
    }
}

/// How many milliseconds the end of the service is waited for, once it was told to stop.
pub fn shutdown(state: &AppState) -> (wait_ms: Option<u64>)
    ensures
        wait_ms == wait_for_the_end(state@.stopped),
        wait_ms == if state@.stopped {
            None::<u64>
        } else {
            Some(1200)
        },
{
    if state.is_stopped() {
        None
    } else {
        Some(1200)
    }
}

/// The state once the session files were looked at.
pub open spec fn with_session(
    state: AppStateView,
    found: Option<quota::QuotaSnapshotView>,
    session_path: Seq<char>,
) -> AppStateView {
    let shown = match found {
        Some(candidate) => with_candidate(state, candidate),
        None => state,
    };
    AppStateView { diagnostics: DiagnosticsView { session_path, ..shown.diagnostics }, ..shown }
}

/// The update that looking at the session files brings.
pub open spec fn session_update(
    state: AppStateView,
    found: Option<quota::QuotaSnapshotView>,
) -> Option<(quota::QuotaSnapshotView, bool)> {
    match found {
        Some(candidate) => candidate_update(state, candidate),
        None => None,
    }
}

/// Considering a candidate never lowers the rank of what is shown, and what is shown keeps its
/// name in the diagnostics.
pub proof fn law_shown_rank_never_drops(state: AppStateView, candidate: quota::QuotaSnapshotView)
    ensures
        state.snapshot matches Some(shown) ==> (with_candidate(
            state,
            candidate,
        ).snapshot matches Some(after) && quota::rank(after.source) >= quota::rank(shown.source)),
        with_candidate(state, candidate).snapshot is Some,
        source_is_named(state) ==> source_is_named(with_candidate(state, candidate)),
{
}

/// Once a server is gone, what it reported stays in view but gives way to session data.
pub proof fn law_session_takes_over_after_disconnect(
    state: AppStateView,
    candidate: quota::QuotaSnapshotView,
)
    requires
        candidate.source == "session"@,
    ensures
        with_demotion(state).snapshot is Some == state.snapshot is Some,
        shown_source(with_demotion(state).snapshot) != "app-server"@,
        with_candidate(with_demotion(state), candidate).snapshot == Some(candidate),
        source_is_named(state) ==> source_is_named(with_demotion(state)),
{
    quota::lemma_sources_differ();
}

/// The seconds to wait before connecting again after failures so many times in a row.
pub open spec fn reconnect_delay(failures: int) -> u64 {
    RECONNECT_SECONDS[if failures < 3 {
        failures
    } else {
        3
    }]
}

/// The number of failures after one more, as far as it is counted.
pub open spec fn next_failures(failures: int) -> int {
    if failures < 3 {
        failures + 1
    } else {
        3
    }
}

/// Sets the time of the next attempt to connect, and notes one more failure.
pub fn schedule_reconnect(now: u64, next_reconnect: &mut u64, backoff_index: &mut usize)
    requires
        now <= u64::MAX - 30 * SECOND,
        *old(backoff_index) < usize::MAX,
    ensures
        *final(next_reconnect) == now + reconnect_delay(*old(backoff_index) as int) * SECOND,
        *final(backoff_index) == next_failures(*old(backoff_index) as int),
{
    let index: usize = if *backoff_index < 3 {
        *backoff_index
    } else {
        3
    };
    let delay: u64 = RECONNECT_SECONDS[index];
    assert(delay <= 30);
    *next_reconnect = now + delay * SECOND;
    *backoff_index = if *backoff_index < 3 {
        *backoff_index + 1
    } else {
        3
    };
}

/// The waits between attempts to connect grow from one second to thirty, and no further.
pub proof fn law_backoff_is_bounded(failures: int)
    requires
        failures >= 0,
    ensures
        1 <= reconnect_delay(failures) <= 30,
        reconnect_delay(failures) <= reconnect_delay(failures + 1),
        failures >= 3 ==> reconnect_delay(failures) == 30,
{
}

/// The time of the next attempt and the number of failures after failures at the given times, one
/// after the other, as scheduling each of them sets the two.
pub open spec fn scheduled(failed_at: Seq<int>, next_reconnect: int, failures: int) -> (int, int)
    decreases failed_at.len(),
{
    if failed_at.len() == 0 {
        (next_reconnect, failures)
    } else {
        let before = scheduled(failed_at.drop_last(), next_reconnect, failures);
        (
            failed_at.last() + reconnect_delay(before.1) * SECOND,
            next_failures(before.1),
        )
    }
}

/// The seconds to wait after so many failures before the last one.
pub open spec fn wait_after(earlier: int) -> int {
    if earlier == 0 {
        1
    } else if earlier == 1 {
        3
    } else if earlier == 2 {
        10
    } else {
        30
    }
}

/// However often connecting fails in a row, the waits are 1, 3, 10 and from then on 30 seconds
/// from the last failure on: they never shrink and never pass 30 seconds. At most three failures
/// are counted, and the time that was set before does not matter.
pub proof fn law_waits_in_a_row(failed_at: Seq<int>, next_reconnect: int)
    requires
        failed_at.len() > 0,
    ensures
        scheduled(failed_at, next_reconnect, 0).0 == failed_at.last() + wait_after(
            failed_at.len() - 1,
        ) * SECOND,
        scheduled(failed_at, next_reconnect, 0).1 == if failed_at.len() < 3 {
            failed_at.len() as int
        } else {
            3
        },
        wait_after(failed_at.len() - 1) <= wait_after(failed_at.len() as int) <= 30,
    decreases failed_at.len(),
{
    reveal_with_fuel(scheduled, 2);
    if failed_at.len() > 1 {
        law_waits_in_a_row(failed_at.drop_last(), next_reconnect);
    }
}

/// What has to be done next in a full refresh.
#[derive(Clone, Copy, Debug, PartialEq, Eq, Structural)]
pub enum RefreshAction {
    /// Connect to an app server.
    Connect,
    /// Ask the connected app server for the rate limits.
    Read,
    /// Look at the session files.
    Scan,
    /// Save and show the diagnostics.
    Finish,
}

/// What came of connecting to an app server.
pub enum Connection {
    Connected { executable: String, pid: u32 },
    Failed(String),
}

/// What came of asking the app server, and whether it was running afterwards.
pub struct Reading {
    pub result: Result<QuotaSnapshot, String>,
    pub last_notification_ms: Option<i64>,
    pub last_bucket: Option<String>,
    pub running: bool,
}

/// What a loop pass has to do.
#[derive(Clone, Copy, Debug, PartialEq, Eq, Structural)]
pub struct Pass {
    pub stop: bool,
    pub refresh_session: bool,
    pub refresh_full: bool,
}

/// The schedule of the service.
#[derive(Clone, Copy, Debug, PartialEq, Eq, Structural)]
pub struct Service {
    pub connected: bool,
    pub next_reconnect: u64,
    pub backoff_index: usize,
    pub last_poll: u64,
    pub last_watch_refresh: u64,
    pub notification_due: Option<u64>,
}

/// The time that has passed since a point in time; none if it lies ahead.
pub open spec fn elapsed(now: u64, since: u64) -> int {
    if now > since {
        now - since
    } else {
        0
    }
}

impl Service {
    /// The failures are counted up to three, and the diagnostics say whether a server is connected.
    pub open spec fn consistent(self, state: AppStateView) -> bool {
        &&& self.backoff_index <= 3
        &&& state.diagnostics.app_server_initialized == self.connected
        &&& state.diagnostics.app_server_pid is Some == self.connected
        &&& source_is_named(state)
    }

    /// It is time to try to connect.
    pub open spec fn connect_due(self, now: u64) -> bool {
        !self.connected && now >= self.next_reconnect
    }

    /// The schedule after a failure to connect, or the loss of a server.
    pub open spec fn after_failure(self, now: u64, failures: int) -> Service {
        Service {
            connected: false,
            next_reconnect: (now + reconnect_delay(failures) * SECOND) as u64,
            backoff_index: if failures < 3 {
                (failures + 1) as usize
            } else {
                3
            },
            ..self
        }
    }

    /// What a full refresh does first.
    pub open spec fn first_action(self, now: u64) -> RefreshAction {
        if self.connect_due(now) {
            RefreshAction::Connect
        } else if self.connected {
            RefreshAction::Read
        } else {
            RefreshAction::Scan
        }
    }

    /// A schedule at the start: everything is due.
    pub open spec fn first(now: u64) -> Service {
        Service {
            connected: false,
            next_reconnect: now,
            backoff_index: 0,
            last_poll: (now - 600 * SECOND) as u64,
            last_watch_refresh: (now - 5 * SECOND) as u64,
            notification_due: None,
        }
    }

    /// A schedule at the start. The clock stands at ten minutes or later.
    pub fn new(now: u64) -> (service: Service)
        requires
            now >= 600 * SECOND,
        ensures
            service == Service::first(now),
    {
        Service {
            connected: false,
            next_reconnect: now,
            backoff_index: 0,
            last_poll: now - 600 * SECOND,
            last_watch_refresh: now - 5 * SECOND,
            notification_due: None,
        }
    }

    /// Takes whether new rate limits were announced: they are read a little later.
    pub fn notified(&mut self, found: bool, now: u64)
        requires
            now <= u64::MAX - NOTIFICATION_DELAY,
        ensures
            *final(self) == old(self).after_announcement(found, now),
            *final(self) == (Service {
                notification_due: if found {
                    Some((now + NOTIFICATION_DELAY) as u64)
                } else {
                    old(self).notification_due
                },
                ..*old(self)
            }),
    {
        if found {
            self.notification_due = Some(now + NOTIFICATION_DELAY);
        }
    }

    /// A full refresh is due: someone asked for it, an announcement has waited long enough, the
    /// interval is over, or it is time to connect.
    pub open spec fn full_due(self, reason: Option<RefreshReason>, interval: u64, now: u64) -> bool {
        ||| reason == Some(RefreshReason::Startup)
        ||| reason == Some(RefreshReason::Manual)
        ||| reason == Some(RefreshReason::Settings)
        ||| self.notification_due matches Some(due) && now >= due
        ||| elapsed(now, self.last_poll) >= (if interval < 15 {
            15
        } else {
            interval as int
        }) * SECOND
        ||| self.connect_due(now)
    }

    /// Session files have changed, and the last refresh for that is long enough ago.
    pub open spec fn session_due(self, reason: Option<RefreshReason>, now: u64) -> bool {
        reason == Some(RefreshReason::Watcher) && elapsed(now, self.last_watch_refresh)
            >= WATCH_INTERVAL
    }

    /// What a pass of the loop has to do.
    pub open spec fn planned(self, reason: Option<RefreshReason>, interval: u64, now: u64) -> Pass {
        if reason == Some(RefreshReason::Shutdown) {
            Pass { stop: true, refresh_session: false, refresh_full: false }
        } else {
            Pass {
                stop: false,
                refresh_session: self.session_due(reason, now),
                refresh_full: self.full_due(reason, interval, now),
            }
        }
    }

    /// The schedule once announcements were asked for.
    pub open spec fn after_announcement(self, found: bool, now: u64) -> Service {
        Service {
            notification_due: if found {
                Some((now + NOTIFICATION_DELAY) as u64)
            } else {
                self.notification_due
            },
            ..self
        }
    }

    /// The schedule once changed session files were looked at.
    pub open spec fn after_session_refresh(self, now: u64) -> Service {
        Service { last_watch_refresh: now, ..self }
    }

    /// The schedule after a full refresh.
    pub open spec fn after_full_refresh(self, now: u64) -> Service {
        Service { last_poll: now, notification_due: None, ..self }
    }

    /// The schedule after an attempt to connect.
    pub open spec fn after_connecting(self, connection: Connection, now: u64) -> Service {
        match connection {
            Connection::Connected { .. } => Service { connected: true, backoff_index: 0, ..self },
            Connection::Failed(_) => self.after_failure(now, self.backoff_index as int),
        }
    }

    /// The schedule after a request.
    pub open spec fn after_reading(self, running: bool, now: u64) -> Service {
        if running {
            self
        } else {
            self.after_failure(now, 0)
        }
    }

    /// The state after a request.
    pub open spec fn state_after_reading(
        state: AppStateView,
        reading: Reading,
        now_ms: i64,
    ) -> AppStateView {
        if reading.running {
            Service::with_reading(state, reading, now_ms)
        } else {
            Service::without_server(Service::with_reading(state, reading, now_ms))
        }
    }

    /// The state once a full refresh has begun.
    pub open spec fn state_at_refresh(self, state: AppStateView, now: u64) -> AppStateView {
        if self.connect_due(now) {
            AppStateView {
                diagnostics: DiagnosticsView {
                    app_server_status: "starting"@,
                    ..state.diagnostics
                },
                ..state
            }
        } else {
            state
        }
    }

    /// Decides what a pass of the loop has to do.
    pub fn plan(&self, reason: Option<RefreshReason>, interval: u64, now: u64) -> (pass: Pass)
        ensures
            pass == self.planned(reason, interval, now),
            pass == if reason == Some(RefreshReason::Shutdown) {
                Pass { stop: true, refresh_session: false, refresh_full: false }
            } else {
                Pass {
                    stop: false,
                    refresh_session: self.session_due(reason, now),
                    refresh_full: self.full_due(reason, interval, now),
                }
            },
    {
        let (asked, watched, stop): (bool, bool, bool) = match reason {
            Some(RefreshReason::Startup) => (true, false, false),
            Some(RefreshReason::Manual) => (true, false, false),
            Some(RefreshReason::Settings) => (true, false, false),
            Some(RefreshReason::Watcher) => (false, true, false),
            Some(RefreshReason::Shutdown) => (false, false, true),
            None => (false, false, false),
        };
        if stop {
            return Pass { stop: true, refresh_session: false, refresh_full: false };
        }
        let announced: bool = match self.notification_due {
            Some(due) => now >= due,
            None => false,
        };
        let since_poll: u64 = if now > self.last_poll {
            now - self.last_poll
        } else {
            0
        };
        let since_watch: u64 = if now > self.last_watch_refresh {
            now - self.last_watch_refresh
        } else {
            0
        };
        let seconds: u64 = if interval < 15 {
            15
        } else {
            interval
        };
        let polled: bool = since_poll as u128 >= seconds as u128 * SECOND as u128;
        let reconnect: bool = !self.connected && now >= self.next_reconnect;
        Pass {
            stop: false,
            refresh_session: watched && since_watch >= WATCH_INTERVAL,
            refresh_full: asked || announced || polled || reconnect,
        }
    }

    /// Notes that a refresh for changed session files is over.
    pub fn session_refreshed(&mut self, now: u64)
        ensures
            *final(self) == old(self).after_session_refresh(now),
            *final(self) == (Service { last_watch_refresh: now, ..*old(self) }),
    {
        self.last_watch_refresh = now;
    }

    /// Notes that a full refresh is over.
    pub fn full_refreshed(&mut self, now: u64)
        ensures
            *final(self) == old(self).after_full_refresh(now),
            *final(self) == (Service { last_poll: now, notification_due: None, ..*old(self) }),
    {
        self.last_poll = now;
        self.notification_due = None;
    }

    /// The state once the server is gone.
    pub open spec fn without_server(state: AppStateView) -> AppStateView {
        let shown = with_demotion(state);
        AppStateView {
            diagnostics: DiagnosticsView {
                app_server_status: "disconnected"@,
                app_server_pid: None,
                app_server_initialized: false,
                ..shown.diagnostics
            },
            ..shown
        }
    }

    /// Takes note that the server is gone.
    pub fn lose_server(&mut self, state: &mut AppState, now: u64) -> (update: Option<Update>)
        requires
            now <= u64::MAX - 30 * SECOND,
        ensures
            *final(self) == old(self).after_failure(now, 0),
            final(state)@ == Service::without_server(old(state)@),
            update_view(update) == demotion_update(old(state)@),
            old(self).consistent(old(state)@) ==> final(self).consistent(final(state)@),
    {
        let update: Option<Update> = state.demote_disconnected_live();
        state.diagnostics.app_server_status = "disconnected".to_owned();
        state.diagnostics.app_server_pid = None;
        state.diagnostics.app_server_initialized = false;
        self.connected = false;
        self.backoff_index = 0;
        schedule_reconnect(now, &mut self.next_reconnect, &mut self.backoff_index);
        update
    }

    /// Begins a full refresh.
    pub fn refresh_full(&mut self, state: &mut AppState, now: u64) -> (action: RefreshAction)
        ensures
            *final(self) == *old(self),
            action == old(self).first_action(now),
            final(state)@ == old(self).state_at_refresh(old(state)@, now),
            final(state)@ == if old(self).connect_due(now) {
                AppStateView {
                    diagnostics: DiagnosticsView {
                        app_server_status: "starting"@,
                        ..old(state)@.diagnostics
                    },
                    ..old(state)@
                }
            } else {
                old(state)@
            },
            old(self).consistent(old(state)@) ==> final(self).consistent(final(state)@),
    {
        if !self.connected && now >= self.next_reconnect {
            state.diagnostics.app_server_status = "starting".to_owned();
            RefreshAction::Connect
        } else if self.connected {
            RefreshAction::Read
        } else {
            RefreshAction::Scan
        }
    }

    /// The diagnostics once connecting succeeded or failed.
    pub open spec fn with_connection(
        diagnostics: DiagnosticsView,
        connection: Connection,
    ) -> DiagnosticsView {
        match connection {
            Connection::Connected { executable, pid } => DiagnosticsView {
                app_server_status: "connected"@,
                app_server_error: None,
                codex_executable: executable@,
                app_server_pid: Some(pid),
                app_server_initialized: true,
                ..diagnostics
            },
            Connection::Failed(error) => DiagnosticsView {
                app_server_status: "disconnected"@,
                codex_executable: if text::occurs("not found"@, error@) {
                    "not found"@
                } else {
                    "found, start failed"@
                },
                app_server_error: Some(error@),
                app_server_pid: None,
                app_server_initialized: false,
                ..diagnostics
            },
        }
    }

    /// What follows an attempt to connect.
    pub open spec fn action_after_connecting(connection: Connection) -> RefreshAction {
        if connection is Connected {
            RefreshAction::Read
        } else {
            RefreshAction::Scan
        }
    }

    /// Takes what came of connecting.
    pub fn connect_done(
        &mut self,
        state: &mut AppState,
        connection: Connection,
        now: u64,
    ) -> (action: RefreshAction)
        requires
            now <= u64::MAX - 30 * SECOND,
            !old(self).connected,
            old(self).backoff_index < usize::MAX,
        ensures
            *final(self) == (match connection {
                Connection::Connected { .. } => Service {
                    connected: true,
                    backoff_index: 0,
                    ..*old(self)
                },
                Connection::Failed(_) => old(self).after_failure(
                    now,
                    old(self).backoff_index as int,
                ),
            }),
            action == Service::action_after_connecting(connection),
            *final(self) == old(self).after_connecting(connection, now),
            final(state)@ == (AppStateView {
                diagnostics: Service::with_connection(old(state)@.diagnostics, connection),
                ..old(state)@
            }),
            old(self).consistent(old(state)@) ==> final(self).consistent(final(state)@),
    {
        match connection {
            Connection::Connected { executable, pid } => {
                state.diagnostics.app_server_status = "connected".to_owned();
                state.diagnostics.app_server_error = None;
                state.diagnostics.codex_executable = executable;
                state.diagnostics.app_server_pid = Some(pid);
                state.diagnostics.app_server_initialized = true;
                self.connected = true;
                self.backoff_index = 0;
                RefreshAction::Read
            },
            Connection::Failed(error) => {
                state.diagnostics.app_server_status = "disconnected".to_owned();
                state.diagnostics.codex_executable = if contains_text(
                    error.as_str(),
                    "not found",
                ) {
                    "not found".to_owned()
                } else {
                    "found, start failed".to_owned()
                };
                state.diagnostics.app_server_error = Some(error);
                state.diagnostics.app_server_pid = None;
                state.diagnostics.app_server_initialized = false;
                schedule_reconnect(now, &mut self.next_reconnect, &mut self.backoff_index);
                RefreshAction::Scan
            },
        }
    }

    /// The state once the app server answered or failed to answer.
    pub open spec fn with_reading(state: AppStateView, reading: Reading, now_ms: i64) -> AppStateView {
        match reading.result {
            Ok(snapshot) => {
                let shown = with_candidate(state, snapshot@);
                AppStateView {
                    diagnostics: DiagnosticsView {
                        app_server_status: "connected"@,
                        app_server_error: None,
                        app_server_last_read_ms: Some(now_ms),
                        app_server_last_notification_ms: reading.last_notification_ms,
                        bucket: quota::text_view(reading.last_bucket),
                        ..shown.diagnostics
                    },
                    ..shown
                }
            },
            Err(error) => AppStateView {
                diagnostics: DiagnosticsView {
                    app_server_status: if text::occurs(
                        "authentication required"@,
                        text::ascii_lowered(error@),
                    ) {
                        "authentication-required"@
                    } else {
                        "connected-error"@
                    },
                    app_server_error: Some(error@),
                    app_server_last_notification_ms: reading.last_notification_ms,
                    ..state.diagnostics
                },
                ..state
            },
        }
    }

    /// What follows a request to the app server.
    pub open spec fn action_after_reading(reading: Reading) -> RefreshAction {
        if reading.result is Ok {
            RefreshAction::Finish
        } else {
            RefreshAction::Scan
        }
    }

    /// Takes what came of asking the app server: the next action, and the updates that the answer
    /// and the loss of the server bring.
    pub fn read_done(
        &mut self,
        state: &mut AppState,
        reading: Reading,
        now_ms: i64,
        now: u64,
    ) -> (done: (RefreshAction, Option<Update>, Option<Update>))
        requires
            now <= u64::MAX - 30 * SECOND,
            old(self).connected,
        ensures
            done.0 == Service::action_after_reading(reading),
            *final(self) == old(self).after_reading(reading.running, now),
            final(state)@ == Service::state_after_reading(old(state)@, reading, now_ms),
            update_view(done.1) == (match reading.result {
                Ok(snapshot) => candidate_update(old(state)@, snapshot@),
                Err(_) => None,
            }),
            ({
                let read = Service::with_reading(old(state)@, reading, now_ms);
                if reading.running {
                    &&& *final(self) == *old(self)
                    &&& final(state)@ == read
                    &&& done.2 is None
                } else {
                    &&& *final(self) == old(self).after_failure(now, 0)
                    &&& final(state)@ == Service::without_server(read)
                    &&& update_view(done.2) == demotion_update(read)
                }
            }),
            old(self).consistent(old(state)@) ==> final(self).consistent(final(state)@),
    {
        let (action, answer): (RefreshAction, Option<Update>) = match reading.result {
            Ok(snapshot) => {
                let update: Option<Update> = state.apply_snapshot(snapshot);
                state.diagnostics.app_server_status = "connected".to_owned();
                state.diagnostics.app_server_error = None;
                state.diagnostics.app_server_last_read_ms = Some(now_ms);
                state.diagnostics.app_server_last_notification_ms = reading.last_notification_ms;
                state.diagnostics.bucket = reading.last_bucket;
                (RefreshAction::Finish, update)
            },
            Err(error) => {
                state.diagnostics.app_server_status = if contains_lowered(
                    error.as_str(),
                    "authentication required",
                ) {
                    "authentication-required".to_owned()
                } else {
                    "connected-error".to_owned()
                };
                state.diagnostics.app_server_error = Some(error);
                state.diagnostics.app_server_last_notification_ms = reading.last_notification_ms;
                (RefreshAction::Scan, None)
            },
        };
        let loss: Option<Update> = if reading.running {
            None
        } else {
            self.lose_server(state, now)
        };
        (action, answer, loss)
    }

    /// Whether a full refresh looks at the session files, given what its steps come to.
    pub open spec fn scans(self, now: u64, connection: Connection, reading: Reading) -> bool {
        let first = self.first_action(now);
        let second = if first == RefreshAction::Connect {
            Service::action_after_connecting(connection)
        } else {
            first
        };
        let third = if second == RefreshAction::Read {
            Service::action_after_reading(reading)
        } else {
            second
        };
        third == RefreshAction::Scan
    }
}

/// The session files are the fallback: a full refresh looks at them exactly if it got no answer
/// from an app server, because none is connected, connecting failed, or it did not answer.
pub proof fn law_sessions_are_the_fallback(
    service: Service,
    now: u64,
    connection: Connection,
    reading: Reading,
)
    ensures
        service.scans(now, connection, reading) <==> !(reading.result is Ok && (service.connected
            || (service.connect_due(now) && connection is Connected))),
{
}

/// The service and the state are consistent at the start, and a full refresh is due.
pub proof fn law_start_is_consistent(
    settings: storage::AppSettingsView,
    snapshot: Option<quota::QuotaSnapshotView>,
    interval: u64,
    now: u64,
)
    requires
        now >= 600 * SECOND,
    ensures
        Service::first(now).consistent(first_state(settings, snapshot)),
        Service::first(now).full_due(None, interval, now),
        Service::first(now).first_action(now) == RefreshAction::Connect,
{
}

/// Looking at the session files keeps the service and the state consistent.
pub proof fn law_sessions_keep_consistency(
    service: Service,
    state: AppStateView,
    found: Option<quota::QuotaSnapshotView>,
    session_path: Seq<char>,
)
    requires
        service.consistent(state),
    ensures
        service.consistent(with_session(state, found, session_path)),
{
}

/// What a running app server reports is shown, whatever was shown before; where it reports
/// nothing, what is shown stays.
pub proof fn law_live_data_is_shown(state: AppStateView, reading: Reading, now_ms: i64)
    ensures
        reading.result matches Ok(snapshot) ==> (snapshot@.source == "app-server"@
            ==> Service::with_reading(state, reading, now_ms).snapshot == Some(snapshot@)),
        reading.result is Err ==> Service::with_reading(state, reading, now_ms).snapshot
            == state.snapshot,
{
}

/// Once every executable was tried in vain, the diagnostics say that none was found.
pub proof fn law_giving_up_reads_as_not_found(
    diagnostics: DiagnosticsView,
    error: String,
    tried: Seq<char>,
)
    requires
        error@ == "Codex executable not found or could not initialize. Tried: "@ + tried,
    ensures
        Service::with_connection(diagnostics, Connection::Failed(error)).codex_executable
            == "not found"@,
{
    reveal_strlit("Codex executable not found or could not initialize. Tried: ");
    reveal_strlit("not found");
    assert(error@.subrange(17, 17int + "not found"@.len()) =~= "not found"@);
}

/// A full refresh does not try to connect before the time set for it, nor while connected.
pub proof fn law_connecting_waits_for_its_time(service: Service, now: u64)
    ensures
        service.first_action(now) == RefreshAction::Connect ==> !service.connected && now
            >= service.next_reconnect,
{
}

/// With settings in range a full refresh is due at the latest ten minutes after the last one,
/// whether or not anyone asks for it.
pub proof fn law_refresh_comes_in_time(
    service: Service,
    reason: Option<RefreshReason>,
    settings: storage::AppSettingsView,
    now: u64,
)
    requires
        elapsed(now, service.last_poll) >= 600 * SECOND,
    ensures
        service.full_due(reason, storage::sanitized(settings).refresh_interval_seconds, now),
{
    storage::law_sanitized_settings_are_in_range(settings);
}

/// The seconds until a reset; none where it is unknown or past.
pub open spec fn seconds_left(reset: Option<i64>, now: i64) -> nat {
    match reset {
        Some(reset) if reset > now => ((reset - now) / 1000) as nat,
        _ => 0,
    }
}

/// A time span as days and hours, or as hours, minutes and seconds.
pub open spec fn span_text(seconds: nat) -> Seq<char> {
    if seconds == 0 {
        "waiting sync"@
    } else if seconds >= 86400 {
        text::decimal(seconds / 86400) + "d "@ + text::decimal(seconds % 86400 / 3600) + "h"@
    } else {
        text::two_digits(seconds / 3600) + ":"@ + text::two_digits(seconds % 3600 / 60) + ":"@
            + text::two_digits(seconds % 60)
    }
}

/// The time until a reset is a number of milliseconds that fits.
pub open spec fn countdown_fits(reset: Option<i64>, now: i64) -> bool {
    reset matches Some(reset) ==> i64::MIN <= reset - now <= i64::MAX
}

/// The time until a reset, as text.
pub fn countdown(reset: Option<i64>, now: i64) -> (result: String)
    requires
        countdown_fits(reset, now),
    ensures
        result@ == span_text(seconds_left(reset, now)),
{
    let seconds: u64 = match reset {
        Some(reset) => {
            if reset > now {
                (reset - now) as u64 / 1000
            } else {
                0
            }
        },
        None => 0,
    };
    assert(seconds == seconds_left(reset, now));
    if seconds == 0 {
        return "waiting sync".to_owned();
    }
    let mut result: String = String::new();
    if seconds >= 86400 {
        push_decimal(&mut result, seconds / 86400);
        result.append("d ");
        push_decimal(&mut result, seconds % 86400 / 3600);
        result.append("h");
    } else {
        push_two_digits(&mut result, seconds / 3600);
        result.append(":");
        push_two_digits(&mut result, seconds % 3600 / 60);
        result.append(":");
        push_two_digits(&mut result, seconds % 60);
    }
    assert(result@ =~= span_text(seconds as nat));
    result
}

/// The parts of a countdown add up to the time that is left; days and hours leave out less than
/// an hour of it.
pub proof fn law_countdown_parts_add_up(seconds: nat)
    ensures
        seconds / 3600 * 3600 + seconds % 3600 / 60 * 60 + seconds % 60 == seconds,
        seconds % 3600 / 60 < 60,
        seconds % 86400 / 3600 < 24,
        ({
            let shown = seconds / 86400 * 86400 + seconds % 86400 / 3600 * 3600;
            shown <= seconds < shown + 3600
        }),
{
}

/// A countdown waits exactly while less than a second is left, or the reset is unknown.
pub proof fn law_countdown_waits_for_the_reset(reset: Option<i64>, now: i64)
    ensures
        span_text(seconds_left(reset, now)) == "waiting sync"@ <==> (match reset {
            Some(reset) => reset - now < 1000,
            None => true,
        }),
{
    let seconds = seconds_left(reset, now);
    if seconds > 0 {
        reveal_strlit("waiting sync");
        reveal_strlit("d ");
        reveal_strlit("h");
        reveal_strlit(":");
        let shown = span_text(seconds);
        if seconds >= 86400 {
            assert(shown.last() == 'h');
        } else {
            let end = text::two_digits(seconds % 60);
            assert(shown[shown.len() - end.len() - 1] == ':');
        }
        assert("waiting sync"@.last() == 'c');
    }
}

/// A percentage as text.
pub open spec fn percent_text(percent: Option<crate::binary64::Binary64>) -> Seq<char> {
    match percent {
        Some(percent) => percent.whole_text() + "%"@,
        None => "N/A"@,
    }
}

/// The text beside the tray icon.
pub open spec fn tooltip(snapshot: Option<quota::QuotaSnapshotView>, now: i64) -> Seq<char> {
    match snapshot {
        None => "Codex Quota · No data"@,
        Some(snapshot) => match snapshot.five_hour {
            None => "Codex Quota · Waiting for sync"@,
            Some(five) => "Codex · 5h "@ + percent_text(five.remaining_percent) + " · "@
                + span_text(seconds_left(five.resets_at_ms, now)) + (match snapshot.long_window {
                Some(
                    quota::QuotaWindowView { remaining_percent: Some(percent), .. },
                ) => " · W "@ + percent_text(Some(percent)),
                _ => Seq::empty(),
            }),
        },
    }
}

/// Builds the text beside the tray icon.
pub fn format_tooltip(snapshot: Option<&QuotaSnapshot>, now: i64) -> (result: String)
    requires
        snapshot matches Some(snapshot) ==> (snapshot.five_hour matches Some(five)
            ==> countdown_fits(five.resets_at_ms, now)),
    ensures
        result@ == tooltip(
            match snapshot {
                Some(snapshot) => Some(snapshot@),
                None => None,
            },
            now,
        ),
{
    let shown: &QuotaSnapshot = match snapshot {
        Some(shown) => shown,
        None => {
            return "Codex Quota · No data".to_owned();
        },
    };
    let five: &QuotaWindow = match &shown.five_hour {
        Some(five) => five,
        None => {
            return "Codex Quota · Waiting for sync".to_owned();
        },
    };
    let mut result: String = "Codex · 5h ".to_owned();
    match five.remaining_percent {
        Some(percent) => {
            percent.push_whole_text(&mut result);
            result.append("%");
        },
        None => {
            result.append("N/A");
        },
    }
    result.append(" · ");
    result.append(countdown(five.resets_at_ms, now).as_str());
    let ghost first = result@;
    assert(first =~= "Codex · 5h "@ + percent_text(five.remaining_percent) + " · "@ + span_text(
        seconds_left(five.resets_at_ms, now),
    ));
    if let Some(long) = &shown.long_window {
        if let Some(percent) = long.remaining_percent {
            result.append(" · W ");
            percent.push_whole_text(&mut result);
            result.append("%");
            assert(result@ =~= first + (" · W "@ + percent_text(Some(percent))));
        }
    }
    assert(result@ =~= tooltip(Some(shown@), now));
    result
}

/// Changed session files are looked at exactly if 750 milliseconds have passed since that was last
/// done, whether or not a server is connected; for no other reason are they looked at alone.
pub proof fn law_changed_sessions_are_looked_at(
    service: Service,
    reason: Option<RefreshReason>,
    now: u64,
)
    ensures
        service.session_due(Some(RefreshReason::Watcher), now) <==> now - service.last_watch_refresh
            >= 750_000_000,
        reason != Some(RefreshReason::Watcher) ==> !service.session_due(reason, now),
{
}

/// A full refresh is due whenever someone asks for it. Otherwise it is due exactly if an
/// announcement is due, the interval, which counts as at least 15 seconds, has passed since the
/// last one, or no server is connected and the time to connect has come.
pub proof fn law_when_a_full_refresh_is_due(
    service: Service,
    reason: Option<RefreshReason>,
    interval: u64,
    now: u64,
)
    ensures
        service.full_due(Some(RefreshReason::Startup), interval, now),
        service.full_due(Some(RefreshReason::Manual), interval, now),
        service.full_due(Some(RefreshReason::Settings), interval, now),
        service.notification_due matches Some(due) ==> (due <= now ==> service.full_due(
            reason,
            interval,
            now,
        )),
        !service.connected && service.next_reconnect <= now ==> service.full_due(
            reason,
            interval,
            now,
        ),
        now - service.last_poll >= 15_000_000_000 && now - service.last_poll >= interval
            * 1_000_000_000 ==> service.full_due(reason, interval, now),
        (reason is None || reason == Some(RefreshReason::Watcher)) && (
        service.notification_due matches Some(due) ==> now < due) && (service.connected || now
            < service.next_reconnect) && (now - service.last_poll < 15_000_000_000 || now
            - service.last_poll < interval * 1_000_000_000) ==> !service.full_due(
            reason,
            interval,
            now,
        ),
{
}

/// A full refresh starts with the connected server; without one it connects if the time for that
/// has come, and else goes to the session files.
pub proof fn law_what_a_refresh_does_first(service: Service, now: u64)
    ensures
        service.first_action(now) == if service.connected {
            RefreshAction::Read
        } else if now < service.next_reconnect {
            RefreshAction::Scan
        } else {
            RefreshAction::Connect
        },
{
}

/// A refresh looks at the session files exactly if no server answered: none was connected, nor
/// could one be connected in time, or the request failed.
pub proof fn law_sessions_stand_in_for_an_answer(
    service: Service,
    now: u64,
    connection: Connection,
    reading: Reading,
)
    ensures
        service.connected || (service.next_reconnect <= now && connection is Connected) ==> (
        service.scans(now, connection, reading) <==> reading.result is Err),
        !service.connected && (now < service.next_reconnect || connection is Failed)
            ==> service.scans(now, connection, reading),
{
}

/// After a failure no server is connected, and the next attempt comes 1, 3, 10 or 30 seconds later,
/// for the first, second, third or a later failure in a row. Polls, watched files and
/// announcements keep their times.
pub proof fn law_a_failure_sets_the_next_attempt(service: Service, now: u64, failures: int)
    requires
        failures >= 0,
        now <= u64::MAX - 30_000_000_000,
    ensures
        ({
            let after = service.after_failure(now, failures);
            &&& !after.connected
            &&& failures == 0 ==> after.next_reconnect == now + 1_000_000_000 && after.backoff_index
                == 1
            &&& failures == 1 ==> after.next_reconnect == now + 3_000_000_000 && after.backoff_index
                == 2
            &&& failures == 2 ==> after.next_reconnect == now + 10_000_000_000
                && after.backoff_index == 3
            &&& failures >= 3 ==> after.next_reconnect == now + 30_000_000_000
                && after.backoff_index == 3
            &&& after.last_poll == service.last_poll
            &&& after.last_watch_refresh == service.last_watch_refresh
            &&& after.notification_due == service.notification_due
        }),
{
}

/// The schedule at the start lets everything happen at once.
pub proof fn law_nothing_waits_at_the_start(now: u64)
    requires
        now >= 600_000_000_000,
    ensures
        ({
            let service = Service::first(now);
            &&& !service.connected
            &&& service.next_reconnect == now
            &&& service.backoff_index == 0
            &&& now - service.last_poll == 600_000_000_000
            &&& now - service.last_watch_refresh == 5_000_000_000
            &&& service.notification_due is None
        }),
{
}

/// Two states differ in nothing but the shown snapshot, its source and what is known of the
/// server.
pub open spec fn same_but_server_and_snapshot(a: AppStateView, b: AppStateView) -> bool {
    &&& a.settings == b.settings
    &&& a.stopped == b.stopped
    &&& a.diagnostics.watcher_status == b.diagnostics.watcher_status
    &&& a.diagnostics.session_path == b.diagnostics.session_path
}

/// Two diagnostics say the same of the server.
pub open spec fn same_server(a: DiagnosticsView, b: DiagnosticsView) -> bool {
    &&& a.app_server_status == b.app_server_status
    &&& a.app_server_error == b.app_server_error
    &&& a.app_server_last_read_ms == b.app_server_last_read_ms
    &&& a.app_server_last_notification_ms == b.app_server_last_notification_ms
    &&& a.codex_executable == b.codex_executable
    &&& a.app_server_pid == b.app_server_pid
    &&& a.app_server_initialized == b.app_server_initialized
    &&& a.bucket == b.bucket
}

/// A candidate is either shown, named as the source, saved and announced, or nothing changes at
/// all. It is shown where nothing is, where it is live, and where what is shown has its source;
/// never is it shown in place of live data if it is not live.
pub proof fn law_a_candidate_is_shown_or_nothing_changes(
    state: AppStateView,
    candidate: quota::QuotaSnapshotView,
)
    ensures
        ({
            let after = with_candidate(state, candidate);
            match candidate_update(state, candidate) {
                Some((shown, cached)) => {
                    &&& shown == candidate
                    &&& cached
                    &&& after.snapshot == Some(candidate)
                    &&& after.diagnostics.source == candidate.source
                    &&& same_server(after.diagnostics, state.diagnostics)
                    &&& same_but_server_and_snapshot(after, state)
                },
                None => after == state,
            }
        }),
        state.snapshot is None || candidate.source == "app-server"@ || candidate.source
            == state.snapshot->0.source ==> candidate_update(state, candidate) is Some,
        candidate.source == "session"@ && state.snapshot is Some && state.snapshot->0.source
            == "cache"@ ==> candidate_update(state, candidate) is Some,
        state.snapshot is Some && state.snapshot->0.source == "app-server"@ && candidate.source
            != "app-server"@ ==> candidate_update(state, candidate) is None,
        state.snapshot is Some && state.snapshot->0.source == "session"@ && candidate.source
            == "cache"@ ==> candidate_update(state, candidate) is None,
{
    quota::lemma_sources_differ();
}

/// Once the server is gone, live data counts as cached, with nothing else of it changed, and is
/// announced but not saved; data from elsewhere is left alone.
pub proof fn law_only_live_data_is_demoted(state: AppStateView)
    ensures
        ({
            let after = with_demotion(state);
            if state.snapshot is Some && state.snapshot->0.source == "app-server"@ {
                let before = state.snapshot->0;
                &&& after.snapshot matches Some(shown) && {
                    &&& shown.source == "cache"@
                    &&& shown.five_hour == before.five_hour
                    &&& shown.long_window == before.long_window
                    &&& shown.observed_at_ms == before.observed_at_ms
                    &&& shown.received_at_ms == before.received_at_ms
                    &&& shown.source_file == before.source_file
                    &&& demotion_update(state) == Some((shown, false))
                }
                &&& after.diagnostics.source == "cache"@
                &&& same_server(after.diagnostics, state.diagnostics)
                &&& same_but_server_and_snapshot(after, state)
            } else {
                after == state && demotion_update(state) is None
            }
        }),
{
}

/// A lost server is reported as disconnected, without a process; what was last read, and from
/// which executable, stays known.
pub proof fn law_a_lost_server_is_reported(state: AppStateView)
    ensures
        ({
            let after = Service::without_server(state);
            &&& after.diagnostics.app_server_status == "disconnected"@
            &&& after.diagnostics.app_server_pid is None
            &&& !after.diagnostics.app_server_initialized
            &&& after.diagnostics.app_server_error == state.diagnostics.app_server_error
            &&& after.diagnostics.app_server_last_read_ms
                == state.diagnostics.app_server_last_read_ms
            &&& after.diagnostics.app_server_last_notification_ms
                == state.diagnostics.app_server_last_notification_ms
            &&& after.diagnostics.codex_executable == state.diagnostics.codex_executable
            &&& after.diagnostics.bucket == state.diagnostics.bucket
            &&& after.snapshot == with_demotion(state).snapshot
            &&& after.diagnostics.source == with_demotion(state).diagnostics.source
            &&& same_but_server_and_snapshot(after, state)
        }),
{
}

/// Connecting is reported: a server with its executable and process and no error, or a failure
/// with its reason and no process, which tells a missing executable from one that did not start.
/// Nothing else is touched.
pub proof fn law_connecting_is_reported(diagnostics: DiagnosticsView, connection: Connection)
    ensures
        ({
            let after = Service::with_connection(diagnostics, connection);
            &&& match connection {
                Connection::Connected { executable, pid } => {
                    &&& after.app_server_status == "connected"@
                    &&& after.app_server_error is None
                    &&& after.codex_executable == executable@
                    &&& after.app_server_pid == Some(pid)
                    &&& after.app_server_initialized
                },
                Connection::Failed(error) => {
                    &&& after.app_server_status == "disconnected"@
                    &&& after.app_server_error == Some(error@)
                    &&& after.app_server_pid is None
                    &&& !after.app_server_initialized
                    &&& (exists|front: Seq<char>, back: Seq<char>|
                        error@ == #[trigger] (front + "not found"@ + back))
                        ==> after.codex_executable == "not found"@
                    &&& !(exists|front: Seq<char>, back: Seq<char>|
                        error@ == #[trigger] (front + "not found"@ + back))
                        ==> after.codex_executable == "found, start failed"@
                },
            }
            &&& after.app_server_last_read_ms == diagnostics.app_server_last_read_ms
            &&& after.app_server_last_notification_ms == diagnostics.app_server_last_notification_ms
            &&& after.bucket == diagnostics.bucket
            &&& after.watcher_status == diagnostics.watcher_status
            &&& after.session_path == diagnostics.session_path
            &&& after.source == diagnostics.source
        }),
        Service::action_after_connecting(connection) == if connection is Connected {
            RefreshAction::Read
        } else {
            RefreshAction::Scan
        },
{
    if let Connection::Failed(error) = connection {
        text::law_occurring_is_standing_somewhere("not found"@, error@);
    }
}

/// An answer is reported with its time and its place in the response; a failure with its reason,
/// which asks to sign in exactly if the reason does, in letters of any case. A failure leaves what
/// is shown, when it was read and where it stood.
pub proof fn law_reading_is_reported(state: AppStateView, reading: Reading, now_ms: i64)
    ensures
        ({
            let after = Service::with_reading(state, reading, now_ms);
            &&& match reading.result {
                Ok(snapshot) => {
                    &&& after.diagnostics.app_server_status == "connected"@
                    &&& after.diagnostics.app_server_error is None
                    &&& after.diagnostics.app_server_last_read_ms == Some(now_ms)
                    &&& after.diagnostics.bucket == quota::text_view(reading.last_bucket)
                    &&& after.snapshot == with_candidate(state, snapshot@).snapshot
                    &&& after.diagnostics.source == with_candidate(
                        state,
                        snapshot@,
                    ).diagnostics.source
                },
                Err(error) => {
                    &&& (exists|front: Seq<char>, back: Seq<char>|
                        text::ascii_lowered(error@) == #[trigger] (front
                            + "authentication required"@ + back))
                        ==> after.diagnostics.app_server_status == "authentication-required"@
                    &&& !(exists|front: Seq<char>, back: Seq<char>|
                        text::ascii_lowered(error@) == #[trigger] (front
                            + "authentication required"@ + back))
                        ==> after.diagnostics.app_server_status == "connected-error"@
                    &&& after.diagnostics.app_server_error == Some(error@)
                    &&& after.diagnostics.app_server_last_read_ms
                        == state.diagnostics.app_server_last_read_ms
                    &&& after.diagnostics.bucket == state.diagnostics.bucket
                    &&& after.snapshot == state.snapshot
                    &&& after.diagnostics.source == state.diagnostics.source
                },
            }
            &&& after.diagnostics.app_server_last_notification_ms == reading.last_notification_ms
            &&& after.diagnostics.codex_executable == state.diagnostics.codex_executable
            &&& after.diagnostics.app_server_pid == state.diagnostics.app_server_pid
            &&& after.diagnostics.app_server_initialized == state.diagnostics.app_server_initialized
            &&& same_but_server_and_snapshot(after, state)
        }),
        Service::action_after_reading(reading) == if reading.result is Ok {
            RefreshAction::Finish
        } else {
            RefreshAction::Scan
        },
{
    if let Err(error) = reading.result {
        text::law_occurring_is_standing_somewhere(
            "authentication required"@,
            text::ascii_lowered(error@),
        );
    }
}

/// Looking at the session files treats what was found as any candidate, and notes the place;
/// where nothing was found only the place is noted.
pub proof fn law_sessions_are_candidates(
    state: AppStateView,
    found: Option<quota::QuotaSnapshotView>,
    session_path: Seq<char>,
)
    ensures
        ({
            let after = with_session(state, found, session_path);
            let shown = match found {
                Some(candidate) => with_candidate(state, candidate),
                None => state,
            };
            &&& after.diagnostics.session_path == session_path
            &&& after.snapshot == shown.snapshot
            &&& after.diagnostics.source == shown.diagnostics.source
            &&& same_server(after.diagnostics, state.diagnostics)
            &&& after.diagnostics.watcher_status == state.diagnostics.watcher_status
            &&& after.settings == state.settings
            &&& after.stopped == state.stopped
            &&& session_update(state, found) == match found {
                Some(candidate) => candidate_update(state, candidate),
                None => None,
            }
        }),
{
}

/// At the start the cached snapshot is shown under its source, or nothing, and nothing is known of
/// a server.
pub proof fn law_the_first_state(
    settings: storage::AppSettingsView,
    snapshot: Option<quota::QuotaSnapshotView>,
)
    ensures
        ({
            let state = first_state(settings, snapshot);
            &&& state.snapshot == snapshot
            &&& state.settings == settings
            &&& !state.stopped
            &&& snapshot is None ==> state.diagnostics.source == "none"@
            &&& snapshot matches Some(shown) ==> state.diagnostics.source == shown.source
            &&& state.diagnostics.app_server_status == "starting"@
            &&& state.diagnostics.codex_executable == "checking"@
            &&& state.diagnostics.app_server_error is None
            &&& state.diagnostics.app_server_last_read_ms is None
            &&& state.diagnostics.app_server_last_notification_ms is None
            &&& state.diagnostics.app_server_pid is None
            &&& !state.diagnostics.app_server_initialized
            &&& state.diagnostics.bucket is None
            &&& state.diagnostics.watcher_status.len() == 0
            &&& state.diagnostics.session_path.len() == 0
        }),
{
}

/// The seconds left are the whole seconds until the reset; none where it is unknown or less than a
/// second away.
pub proof fn law_seconds_left_are_whole_seconds(reset: i64, now: i64)
    ensures
        seconds_left(None, now) == 0,
        reset - now < 1000 ==> seconds_left(Some(reset), now) == 0,
        reset - now >= 1000 ==> seconds_left(Some(reset), now) * 1000 <= reset - now < (
        seconds_left(Some(reset), now) + 1) * 1000,
{
}

/// A digit character at a position of a text.
pub open spec fn digit_at(text: Seq<char>, at: int) -> int {
    text[at] as int - 48
}

/// Under a day the countdown shows two digits each for hours, minutes and seconds, which add up to
/// the time that is left.
pub proof fn law_a_countdown_reads_as_the_time_left(seconds: nat)
    requires
        0 < seconds < 86400,
    ensures
        ({
            let shown = span_text(seconds);
            &&& shown.len() == 8
            &&& shown[2] == ':' && shown[5] == ':'
            &&& 0 <= digit_at(shown, 0) <= 2 && 0 <= digit_at(shown, 1) <= 9
            &&& 0 <= digit_at(shown, 3) <= 5 && 0 <= digit_at(shown, 4) <= 9
            &&& 0 <= digit_at(shown, 6) <= 5 && 0 <= digit_at(shown, 7) <= 9
            &&& (digit_at(shown, 0) * 10 + digit_at(shown, 1)) * 3600 + (digit_at(shown, 3) * 10
                + digit_at(shown, 4)) * 60 + digit_at(shown, 6) * 10 + digit_at(shown, 7) == seconds
        }),
{
    let hours = seconds / 3600;
    let minutes = seconds % 3600 / 60;
    let rest = seconds % 60;
    text::law_two_digits_read_back(hours);
    text::law_two_digits_read_back(minutes);
    text::law_two_digits_read_back(rest);
    reveal_strlit(":");
    let shown = span_text(seconds);
    let (h, m, s) = (text::two_digits(hours), text::two_digits(minutes), text::two_digits(rest));
    assert(shown == h + ":"@ + m + ":"@ + s);
    assert(shown[0] == h[0] && shown[1] == h[1] && shown[3] == m[0] && shown[4] == m[1] && shown[6]
        == s[0] && shown[7] == s[1]);
}

/// From a day on the countdown shows whole days and the whole hours beyond them.
pub proof fn law_a_long_countdown_shows_days_and_hours(seconds: nat)
    requires
        seconds >= 86400,
    ensures
        exists|days: nat, hours: nat|
            span_text(seconds) == #[trigger] text::decimal(days) + "d "@ + #[trigger] text::decimal(
                hours,
            ) + "h"@ && hours < 24 && days * 86400 + hours * 3600 <= seconds < days * 86400 + hours
                * 3600 + 3600,
{
    let days = seconds / 86400;
    let hours = seconds % 86400 / 3600;
    assert(span_text(seconds) == text::decimal(days) + "d "@ + text::decimal(hours) + "h"@);
}

/// The tooltip goes by what remains, when it resets, and what remains of the long window, and by
/// nothing else of a snapshot: two snapshots that agree in these have the same tooltip, whatever
/// they say of what is used, of durations, sources and times.
pub proof fn law_the_tooltip_goes_by_what_remains(
    a: quota::QuotaSnapshotView,
    b: quota::QuotaSnapshotView,
    now: i64,
)
    requires
        a.five_hour is Some == b.five_hour is Some,
        a.five_hour is Some ==> a.five_hour->0.remaining_percent
            == b.five_hour->0.remaining_percent && a.five_hour->0.resets_at_ms
            == b.five_hour->0.resets_at_ms,
        (if a.long_window is Some {
            a.long_window->0.remaining_percent
        } else {
            None
        }) == (if b.long_window is Some {
            b.long_window->0.remaining_percent
        } else {
            None
        }),
    ensures
        tooltip(Some(a), now) == tooltip(Some(b), now),
{
}

/// The tooltip says what remains of the five hours, then the countdown to their reset, then what
/// remains of the long window, if that is known.
pub proof fn law_the_tooltip_says_what_remains(
    snapshot: quota::QuotaSnapshotView,
    five_hour: quota::QuotaWindowView,
    now: i64,
)
    requires
        snapshot.five_hour == Some(five_hour),
    ensures
        ({
            let countdown = span_text(seconds_left(five_hour.resets_at_ms, now));
            let front = match five_hour.remaining_percent {
                Some(percent) => "Codex · 5h "@ + (percent.whole_text() + "%"@) + " · "@ + countdown,
                None => "Codex · 5h "@ + "N/A"@ + " · "@ + countdown,
            };
            if snapshot.long_window is Some && snapshot.long_window->0.remaining_percent is Some {
                tooltip(Some(snapshot), now) == front + (" · W "@ + (
                snapshot.long_window->0.remaining_percent->0.whole_text() + "%"@))
            } else {
                tooltip(Some(snapshot), now) == front
            }
        }),
{
    assert(tooltip(Some(snapshot), now) =~= tooltip(Some(snapshot), now) + Seq::<char>::empty());
}

/// Without a snapshot, or without a five-hour window in it, the tooltip says so.
pub proof fn law_the_tooltip_without_data(snapshot: quota::QuotaSnapshotView, now: i64)
    ensures
        tooltip(None, now) == "Codex Quota · No data"@,
        snapshot.five_hour is None ==> tooltip(Some(snapshot), now)
            == "Codex Quota · Waiting for sync"@,
{
}

/// A pass stops exactly if it was told to, and then refreshes nothing. Otherwise it looks at
/// changed session files and refreshes fully, each exactly if that is due.
pub proof fn law_what_a_pass_does(
    service: Service,
    reason: Option<RefreshReason>,
    interval: u64,
    now: u64,
)
    ensures
        ({
            let pass = service.planned(reason, interval, now);
            let stop = reason == Some(RefreshReason::Shutdown);
            let asked = reason == Some(RefreshReason::Startup) || reason == Some(
                RefreshReason::Manual,
            ) || reason == Some(RefreshReason::Settings);
            let announced = service.notification_due is Some && service.notification_due->0 <= now;
            let polled = now - service.last_poll >= 15_000_000_000 && now - service.last_poll
                >= interval * 1_000_000_000;
            let reconnect = !service.connected && service.next_reconnect <= now;
            &&& pass.stop == stop
            &&& pass.refresh_session <==> reason == Some(RefreshReason::Watcher) && now
                - service.last_watch_refresh >= 750_000_000
            &&& pass.refresh_full <==> !stop && (asked || announced || polled || reconnect)
        }),
{
}

/// After a full refresh a connected service has nothing to do by itself for the interval, and then
/// refreshes again.
pub proof fn law_polls_are_an_interval_apart(
    service: Service,
    interval: u64,
    now: u64,
    later: u64,
)
    requires
        service.connected,
        15 <= interval,
    ensures
        service.after_full_refresh(now).planned(None, interval, later).refresh_full <==> later - now
            >= interval * 1_000_000_000,
        service.after_full_refresh(now).connected == service.connected,
        service.after_full_refresh(now).next_reconnect == service.next_reconnect,
        service.after_full_refresh(now).backoff_index == service.backoff_index,
        service.after_full_refresh(now).last_watch_refresh == service.last_watch_refresh,
{
}

/// After a look at changed session files the next one comes 750 milliseconds later at the
/// earliest, and nothing else waits for it.
pub proof fn law_looks_at_sessions_are_apart(
    service: Service,
    interval: u64,
    now: u64,
    later: u64,
)
    ensures
        ({
            let after = service.after_session_refresh(now);
            &&& after.planned(Some(RefreshReason::Watcher), interval, later).refresh_session <==> later
                - now >= 750_000_000
            &&& after.planned(None, interval, later).refresh_full == service.planned(
                None,
                interval,
                later,
            ).refresh_full
            &&& after.connected == service.connected
            &&& after.backoff_index == service.backoff_index
        }),
{
}

/// An announcement is followed up 350 milliseconds later; without one nothing changes.
pub proof fn law_announcements_are_followed_up(service: Service, now: u64)
    requires
        now <= u64::MAX - 350_000_000,
    ensures
        service.after_announcement(false, now) == service,
        ({
            let after = service.after_announcement(true, now);
            &&& after.notification_due == Some((now + 350_000_000) as u64)
            &&& after.connected == service.connected
            &&& after.next_reconnect == service.next_reconnect
            &&& after.backoff_index == service.backoff_index
            &&& after.last_poll == service.last_poll
            &&& after.last_watch_refresh == service.last_watch_refresh
        }),
{
}

/// A connection that succeeds is kept and forgets earlier failures; one that fails counts one more.
pub proof fn law_what_connecting_comes_to(service: Service, connection: Connection, now: u64)
    requires
        now <= u64::MAX - 30_000_000_000,
    ensures
        ({
            let after = service.after_connecting(connection, now);
            &&& after.connected == (connection is Connected)
            &&& connection is Connected ==> after.backoff_index == 0 && after.next_reconnect
                == service.next_reconnect
            &&& connection is Failed && service.backoff_index < 3 ==> after.backoff_index
                == service.backoff_index + 1
            &&& connection is Failed && service.backoff_index >= 3 ==> after.backoff_index == 3
            &&& connection is Failed ==> now + 1_000_000_000 <= after.next_reconnect <= now
                + 30_000_000_000
            &&& after.last_poll == service.last_poll
            &&& after.last_watch_refresh == service.last_watch_refresh
            &&& after.notification_due == service.notification_due
        }),
{
}

/// A server that still runs after a request stays connected; one that does not is given up, to be
/// connected again a second later, and no live data is shown any more.
pub proof fn law_a_server_found_dead_is_given_up(
    service: Service,
    state: AppStateView,
    reading: Reading,
    now_ms: i64,
    now: u64,
)
    requires
        now <= u64::MAX - 30_000_000_000,
    ensures
        service.after_reading(true, now) == service,
        !service.after_reading(false, now).connected,
        service.after_reading(false, now).next_reconnect == now + 1_000_000_000,
        service.after_reading(false, now).backoff_index == 1,
        ({
            let after = Service::state_after_reading(state, reading, now_ms);
            &&& reading.running ==> after == Service::with_reading(state, reading, now_ms)
            &&& !reading.running ==> {
                &&& after.diagnostics.app_server_status == "disconnected"@
                &&& after.diagnostics.app_server_pid is None
                &&& !after.diagnostics.app_server_initialized
                &&& after.snapshot matches Some(shown) ==> shown.source != "app-server"@
                &&& after.snapshot is Some == Service::with_reading(
                    state,
                    reading,
                    now_ms,
                ).snapshot is Some
            }
        }),
{
    quota::lemma_sources_differ();
}

/// A full refresh that connects says that it starts, and touches nothing else.
pub proof fn law_starting_is_reported(service: Service, state: AppStateView, now: u64)
    ensures
        ({
            let after = service.state_at_refresh(state, now);
            &&& service.connected || now < service.next_reconnect ==> after == state
            &&& !service.connected && service.next_reconnect <= now
                ==> after.diagnostics.app_server_status == "starting"@
            &&& after.snapshot == state.snapshot
            &&& after.diagnostics.source == state.diagnostics.source
            &&& after.diagnostics.app_server_error == state.diagnostics.app_server_error
            &&& after.diagnostics.app_server_pid == state.diagnostics.app_server_pid
            &&& after.diagnostics.app_server_initialized == state.diagnostics.app_server_initialized
            &&& after.diagnostics.codex_executable == state.diagnostics.codex_executable
            &&& same_but_server_and_snapshot(after, state)
        }),
{
}

/// Watching is reported with its place, and touches nothing else.
pub proof fn law_watching_is_reported(state: AppStateView, running: bool, session_path: Seq<char>)
    ensures
        ({
            let after = with_watcher(state, running, session_path);
            &&& running ==> after.diagnostics.watcher_status == "running"@
            &&& !running ==> after.diagnostics.watcher_status == "unavailable"@
            &&& after.diagnostics.session_path == session_path
            &&& same_server(after.diagnostics, state.diagnostics)
            &&& after.diagnostics.source == state.diagnostics.source
            &&& after.snapshot == state.snapshot
            &&& after.settings == state.settings
            &&& after.stopped == state.stopped
        }),
{
}

/// Settings that were saved are in force, in range; those that could not be saved change nothing.
pub proof fn law_saved_settings_are_in_force(
    state: AppStateView,
    settings: storage::AppSettingsView,
)
    ensures
        with_saved(state, settings, false) == state,
        with_saved(state, settings, true).settings == storage::sanitized(settings),
        with_saved(state, settings, true).snapshot == state.snapshot,
        with_saved(state, settings, true).diagnostics == state.diagnostics,
        with_saved(state, settings, true).stopped == state.stopped,
{
}

/// The user sees the snapshot that is shown; where there is none, an empty one of now, without a
/// source.
pub proof fn law_the_user_sees_what_is_shown(snapshot: quota::QuotaSnapshotView, now_ms: i64)
    ensures
        shown_quota(Some(snapshot), now_ms) == snapshot,
        ({
            let empty = shown_quota(None, now_ms);
            &&& empty.source == "none"@
            &&& empty.five_hour is None && empty.long_window is None
            &&& empty.observed_at_ms is None && empty.received_at_ms == Some(now_ms)
            &&& empty.source_file is None
        }),
        wait_for_the_end(true) is None,
        wait_for_the_end(false) == Some(1200u64),
{
}

} // verus!
