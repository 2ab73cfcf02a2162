//! Quota windows, and the snapshot that is shown of them.

use crate::binary64;
use crate::binary64::Binary64;
use crate::json::{Json, JsonNumber};
use crate::text::same_text;
use vstd::prelude::*;

verus! {

/// One rate-limit window.
#[derive(Debug, PartialEq, Eq)]
pub struct QuotaWindow {
    pub kind: String,
    pub used_percent: Option<Binary64>,
    pub remaining_percent: Option<Binary64>,
    pub resets_at_ms: Option<i64>,
    pub window_duration_mins: Option<u64>,
}

/// What a window holds.
pub struct QuotaWindowView {
    pub kind: Seq<char>,
    pub used_percent: Option<Binary64>,
    pub remaining_percent: Option<Binary64>,
    pub resets_at_ms: Option<i64>,
    pub window_duration_mins: Option<u64>,
}

impl View for QuotaWindow {
    type V = QuotaWindowView;

    open spec fn view(&self) -> QuotaWindowView {
        QuotaWindowView {
            kind: self.kind@,
            used_percent: self.used_percent,
            remaining_percent: self.remaining_percent,
            resets_at_ms: self.resets_at_ms,
            window_duration_mins: self.window_duration_mins,
        }
    }
}

impl Default for QuotaWindow {
    fn default() -> (window: QuotaWindow)
        ensures
            window@ == (QuotaWindowView {
                kind: Seq::empty(),
                used_percent: None,
                remaining_percent: None,
                resets_at_ms: None,
                window_duration_mins: None,
            }),
    {
        QuotaWindow {
            kind: String::new(),
            used_percent: None,
            remaining_percent: None,
            resets_at_ms: None,
            window_duration_mins: None,
        }
    }
}

impl Clone for QuotaWindow {
    fn clone(&self) -> (copy: QuotaWindow)
        ensures
            copy == *self,
    {
        QuotaWindow {
            kind: self.kind.clone(),
            used_percent: self.used_percent,
            remaining_percent: self.remaining_percent,
            resets_at_ms: self.resets_at_ms,
            window_duration_mins: self.window_duration_mins,
        }
    }
}

/// The quota as one source reported it at one time.
#[derive(Debug, PartialEq, Eq)]
pub struct QuotaSnapshot {
    pub five_hour: Option<QuotaWindow>,
    pub long_window: Option<QuotaWindow>,
    pub source: String,
    pub observed_at_ms: Option<i64>,
    pub received_at_ms: Option<i64>,
    pub source_file: Option<String>,
}

/// What a snapshot holds.
pub struct QuotaSnapshotView {
    pub five_hour: Option<QuotaWindowView>,
    pub long_window: Option<QuotaWindowView>,
    pub source: Seq<char>,
    pub observed_at_ms: Option<i64>,
    pub received_at_ms: Option<i64>,
    pub source_file: Option<Seq<char>>,
}

/// What an optional window holds.
pub open spec fn window_view(window: Option<QuotaWindow>) -> Option<QuotaWindowView> {
    match window {
        Some(window) => Some(window@),
        None => None,
    }
}

/// The characters of an optional text.
pub open spec fn text_view(text: Option<String>) -> Option<Seq<char>> {
    match text {
        Some(text) => Some(text@),
        None => None,
    }
}

impl View for QuotaSnapshot {
    type V = QuotaSnapshotView;

    open spec fn view(&self) -> QuotaSnapshotView {
        QuotaSnapshotView {
            five_hour: window_view(self.five_hour),
            long_window: window_view(self.long_window),
            source: self.source@,
            observed_at_ms: self.observed_at_ms,
            received_at_ms: self.received_at_ms,
            source_file: text_view(self.source_file),
        }
    }
}

impl Default for QuotaSnapshot {
    fn default() -> (snapshot: QuotaSnapshot)
        ensures
            snapshot@ == (QuotaSnapshotView {
                five_hour: None,
                long_window: None,
                source: Seq::empty(),
                observed_at_ms: None,
                received_at_ms: None,
                source_file: None,
            }),
    {
        QuotaSnapshot {
            five_hour: None,
            long_window: None,
            source: String::new(),
            observed_at_ms: None,
            received_at_ms: None,
            source_file: None,
        }
    }
}

impl Clone for QuotaSnapshot {
    fn clone(&self) -> (copy: QuotaSnapshot)
        ensures
            copy == *self,
    {
        QuotaSnapshot {
            five_hour: match &self.five_hour {
                Some(window) => Some(window.clone()),
                None => None,
            },
            long_window: match &self.long_window {
                Some(window) => Some(window.clone()),
                None => None,
            },
            source: self.source.clone(),
            observed_at_ms: self.observed_at_ms,
            received_at_ms: self.received_at_ms,
            source_file: match &self.source_file {
                Some(file) => Some(file.clone()),
                None => None,
            },
        }
    }
}

/// The first number among the members with the given names.
pub open spec fn first_number(value: Json, names: Seq<Seq<char>>) -> Option<Binary64>
    decreases names.len(),
{
    if names.len() == 0 {
        None
    } else {
        match value.member(names[0]) {
            Some(Json::Number(JsonNumber { double: Some(double), .. })) => Some(double),
            _ => first_number(value, names.drop_first()),
        }
    }
}

/// The first number among the members with the given names, if it is finite.
pub open spec fn number(value: Json, names: Seq<Seq<char>>) -> Option<Binary64> {
    match first_number(value, names) {
        Some(double) if double.finite() => Some(double),
        _ => None,
    }
}

fn find_number(value: &Json, names: &[&str]) -> (found: Option<Binary64>)
    ensures
        found == number(*value, names@.map_values(|name: &str| name@)),
{
    let ghost all = names@.map_values(|name: &str| name@);
    let mut i: usize = 0;
    assert(all.skip(0) =~= all);
    while i < names.len()
        invariant
            i <= names@.len(),
            all == names@.map_values(|name: &str| name@),
            first_number(*value, all) == first_number(*value, all.skip(i as int)),
        decreases names.len() - i,
    {
        assert(all.skip(i as int).drop_first() =~= all.skip(i + 1));
        assert(all.skip(i as int)[0] == names@[i as int]@);
        if let Some(member) = value.get(names[i]) {
            if let Some(double) = member.as_double() {
                if double.is_finite() {
                    return Some(double);
                } else {
                    return None;
                }
            }
        }
        i = i + 1;
    }
    None
}

/// The window that an object describes. What remains is given, or follows from what is used.
pub open spec fn window_of(value: Json) -> QuotaWindowView {
    let used = number(value, seq!["usedPercent"@, "used_percent"@]);
    QuotaWindowView {
        kind: Seq::empty(),
        used_percent: used,
        remaining_percent: match number(value, seq!["remainingPercent"@, "remaining_percent"@]) {
            Some(remaining) => Some(remaining),
            None => match used {
                Some(used) => Some(binary64::number_of_units(binary64::remaining_units(used))),
                None => None,
            },
        },
        resets_at_ms: match number(
            value,
            seq!["resetsAt"@, "resets_at"@, "resetAt"@, "reset_at"@],
        ) {
            Some(time) => match time.epoch_millis() {
                Some(millis) => Some(millis as i64),
                None => None,
            },
            None => None,
        },
        window_duration_mins: match number(
            value,
            seq![
                "windowDurationMins"@,
                "window_duration_mins"@,
                "windowMinutes"@,
                "window_minutes"@,
            ],
        ) {
            Some(minutes) => Some(minutes.whole() as u64),
            None => None,
        },
    }
}

/// Reads a window from an object, in either spelling of its members.
pub fn normalize_window(value: &Json) -> (window: QuotaWindow)
    ensures
        window@ == window_of(*value),
{
    let used_names: [&str; 2] = ["usedPercent", "used_percent"];
    let remaining_names: [&str; 2] = ["remainingPercent", "remaining_percent"];
    let duration_names: [&str; 4] = [
        "windowDurationMins",
        "window_duration_mins",
        "windowMinutes",
        "window_minutes",
    ];
    let reset_names: [&str; 4] = ["resetsAt", "resets_at", "resetAt", "reset_at"];
    proof {
        let views = |name: &str| name@;
        assert(used_names@.map_values(views) =~= seq!["usedPercent"@, "used_percent"@]);
        assert(remaining_names@.map_values(views) =~= seq![
            "remainingPercent"@,
            "remaining_percent"@,
        ]);
        assert(duration_names@.map_values(views) =~= seq![
            "windowDurationMins"@,
            "window_duration_mins"@,
            "windowMinutes"@,
            "window_minutes"@,
        ]);
        assert(reset_names@.map_values(views) =~= seq![
            "resetsAt"@,
            "resets_at"@,
            "resetAt"@,
            "reset_at"@,
        ]);
    }
    let used: Option<Binary64> = find_number(value, &used_names);
    let given: Option<Binary64> = find_number(value, &remaining_names);
    let duration: Option<Binary64> = find_number(value, &duration_names);
    let reset: Option<Binary64> = find_number(value, &reset_names);
    QuotaWindow {
        kind: String::new(),
        used_percent: used,
        remaining_percent: match given {
            Some(remaining) => Some(remaining),
            None => match used {
                Some(used) => Some(used.remaining()),
                None => None,
            },
        },
        resets_at_ms: match reset {
            Some(time) => time.to_epoch_millis(),
            None => None,
        },
        window_duration_mins: match duration {
            Some(minutes) => Some(minutes.to_whole()),
            None => None,
        },
    }
}

/// What the windows of a list hold.
pub open spec fn window_views(windows: Seq<QuotaWindow>) -> Seq<QuotaWindowView> {
    windows.map_values(|window: QuotaWindow| window@)
}

/// The window in a bucket, where the bucket is an object.
pub open spec fn bucket_window(limits: Json, bucket: Seq<char>) -> Seq<QuotaWindowView> {
    match limits.member(bucket) {
        Some(Json::Object(members)) => seq![window_of(Json::Object(members))],
        _ => Seq::empty(),
    }
}

/// The windows in the two buckets of the rate limits that stand under a key.
pub open spec fn limits_windows(value: Json, key: Seq<char>) -> Seq<QuotaWindowView> {
    match value.member(key) {
        Some(limits) => bucket_window(limits, "primary"@) + bucket_window(limits, "secondary"@),
        None => Seq::empty(),
    }
}

/// The window that an object is itself, where it says how much is used.
pub open spec fn own_window(value: Json) -> Seq<QuotaWindowView> {
    if value.member("usedPercent"@) is Some || value.member("used_percent"@) is Some {
        seq![window_of(value)]
    } else {
        Seq::empty()
    }
}

/// The windows that an object names: those of its rate limits, then the object itself.
pub open spec fn object_windows(value: Json) -> Seq<QuotaWindowView> {
    limits_windows(value, "rate_limits"@) + limits_windows(value, "rateLimits"@) + own_window(value)
}

/// Every window in a document: in an object first those of its rate limits, then the object
/// itself, then those of its members in order; in a list those of its items in order.
pub open spec fn windows_in(value: Json) -> Seq<QuotaWindowView>
    decreases value, 0nat,
{
    match value {
        Json::Object(members) => object_windows(value) + windows_in_members(
            members@,
            members@.len(),
        ),
        Json::Array(items) => windows_in_items(items@, items@.len()),
        _ => Seq::empty(),
    }
}

/// The windows in the first `count` members.
pub open spec fn windows_in_members(members: Seq<(String, Json)>, count: nat) -> Seq<
    QuotaWindowView,
>
    decreases members, count,
{
    if count == 0 || count > members.len() {
        Seq::empty()
    } else {
        windows_in_members(members, (count - 1) as nat) + windows_in(members[count - 1].1)
    }
}

/// The windows in the first `count` items.
pub open spec fn windows_in_items(items: Seq<Json>, count: nat) -> Seq<QuotaWindowView>
    decreases items, count,
{
    if count == 0 || count > items.len() {
        Seq::empty()
    } else {
        windows_in_items(items, (count - 1) as nat) + windows_in(items[count - 1])
    }
}

fn push_bucket(limits: &Json, bucket: &str, output: &mut Vec<QuotaWindow>)
    ensures
        window_views(final(output)@) == window_views(old(output)@) + bucket_window(
            *limits,
            bucket@,
        ),
{
    if let Some(window) = limits.get(bucket) {
        if window.is_object() {
            output.push(normalize_window(window));
        }
    }
    assert(window_views(output@) =~= window_views(old(output)@) + bucket_window(
        *limits,
        bucket@,
    ));
}

fn push_limits(value: &Json, key: &str, output: &mut Vec<QuotaWindow>)
    ensures
        window_views(final(output)@) == window_views(old(output)@) + limits_windows(*value, key@),
{
    if let Some(limits) = value.get(key) {
        push_bucket(limits, "primary", output);
        push_bucket(limits, "secondary", output);
    }
    assert(window_views(output@) =~= window_views(old(output)@) + limits_windows(*value, key@));
}

fn push_object(value: &Json, output: &mut Vec<QuotaWindow>)
    ensures
        window_views(final(output)@) == window_views(old(output)@) + object_windows(*value),
{
    push_limits(value, "rate_limits", output);
    push_limits(value, "rateLimits", output);
    let ghost limits = window_views(output@);
    if value.get("usedPercent").is_some() || value.get("used_percent").is_some() {
        output.push(normalize_window(value));
    }
    assert(window_views(output@) =~= limits + own_window(*value));
    assert(window_views(output@) =~= window_views(old(output)@) + object_windows(*value));
}

/// Appends every window in a document.
pub fn find_windows(value: &Json, output: &mut Vec<QuotaWindow>)
    ensures
        window_views(final(output)@) == window_views(old(output)@) + windows_in(*value),
    decreases *value,
{
    let ghost before = window_views(output@);
    match value {
        Json::Object(members) => {
            push_object(value, output);
            let ghost own = object_windows(*value);
            assert(window_views(output@) =~= before + own + windows_in_members(members@, 0));
            let mut i: usize = 0;
            while i < members.len()
                invariant
                    i <= members@.len(),
                    *value == Json::Object(*members),
                    window_views(output@) == before + own + windows_in_members(
                        members@,
                        i as nat,
                    ),
                decreases members.len() - i,
            {
                assert(decreases_to!(*value => value->Object_0));
                assert(decreases_to!(*members => members@));
                assert(decreases_to!(members@ => members@[i as int]));
                assert(decreases_to!(members@[i as int] => members@[i as int].1));
                find_windows(&members[i].1, output);
                i = i + 1;
                assert(window_views(output@) =~= before + own + windows_in_members(
                    members@,
                    i as nat,
                ));
            }
            assert(window_views(output@) =~= before + windows_in(*value));
        },
        Json::Array(items) => {
            assert(window_views(output@) =~= before + windows_in_items(items@, 0));
            let mut i: usize = 0;
            while i < items.len()
                invariant
                    i <= items@.len(),
                    *value == Json::Array(*items),
                    window_views(output@) == before + windows_in_items(items@, i as nat),
                decreases items.len() - i,
            {
                assert(decreases_to!(*value => value->Array_0));
                assert(decreases_to!(*items => items@));
                assert(decreases_to!(items@ => items@[i as int]));
                find_windows(&items[i], output);
                i = i + 1;
                assert(window_views(output@) =~= before + windows_in_items(items@, i as nat));
            }
        },
        _ => {
            assert(window_views(output@) =~= before + windows_in(*value));
        },
    }
}

/// The classes into which windows fall by their duration.
#[derive(Clone, Copy, Debug, PartialEq, Eq, Structural)]
pub enum WindowClass {
    FiveHour,
    Weekly,
    Long,
    Other,
}

/// Five hours and a week count with some tolerance; anything else longer than five hours is long.
pub open spec fn class_of(window: QuotaWindowView) -> WindowClass {
    match window.window_duration_mins {
        Some(minutes) => if 295 <= minutes <= 305 {
            WindowClass::FiveHour
        } else if 10070 <= minutes <= 10090 {
            WindowClass::Weekly
        } else if minutes >= 306 {
            WindowClass::Long
        } else {
            WindowClass::Other
        },
        None => WindowClass::Other,
    }
}

/// The class of a window.
pub fn window_class(window: &QuotaWindow) -> (class: WindowClass)
    ensures
        class == class_of(window@),
{
    match window.window_duration_mins {
        Some(minutes) => {
            if 295 <= minutes && minutes <= 305 {
                WindowClass::FiveHour
            } else if 10070 <= minutes && minutes <= 10090 {
                WindowClass::Weekly
            } else if minutes >= 306 {
                WindowClass::Long
            } else {
                WindowClass::Other
            }
        },
        None => WindowClass::Other,
    }
}

/// The last window of a class.
pub open spec fn last_of(windows: Seq<QuotaWindowView>, class: WindowClass) -> Option<
    QuotaWindowView,
>
    decreases windows.len(),
{
    if windows.len() == 0 {
        None
    } else if class_of(windows.last()) == class {
        Some(windows.last())
    } else {
        last_of(windows.drop_last(), class)
    }
}

/// The first window of a class.
pub open spec fn first_of(windows: Seq<QuotaWindowView>, class: WindowClass) -> Option<
    QuotaWindowView,
>
    decreases windows.len(),
{
    if windows.len() == 0 {
        None
    } else if class_of(windows.first()) == class {
        Some(windows.first())
    } else {
        first_of(windows.drop_first(), class)
    }
}

/// A window under a name of its kind.
pub open spec fn named(window: Option<QuotaWindowView>, kind: Seq<char>) -> Option<
    QuotaWindowView,
> {
    match window {
        Some(window) => Some(QuotaWindowView { kind, ..window }),
        None => None,
    }
}

/// The five-hour window that is shown: the last one found.
pub open spec fn shown_five_hour(windows: Seq<QuotaWindowView>) -> Option<QuotaWindowView> {
    named(last_of(windows, WindowClass::FiveHour), "five-hour"@)
}

/// The long window that is shown: the last weekly one; where there is none, the first long one.
pub open spec fn shown_long_window(windows: Seq<QuotaWindowView>) -> Option<QuotaWindowView> {
    if last_of(windows, WindowClass::Weekly) is Some {
        named(last_of(windows, WindowClass::Weekly), "weekly"@)
    } else {
        named(first_of(windows, WindowClass::Long), "long-window"@)
    }
}

/// The snapshot that windows make up; nothing where none of them is shown.
pub open spec fn classified(
    windows: Seq<QuotaWindowView>,
    source: Seq<char>,
    now_ms: i64,
) -> Option<QuotaSnapshotView> {
    if shown_five_hour(windows) is None && shown_long_window(windows) is None {
        None
    } else {
        Some(
            QuotaSnapshotView {
                five_hour: shown_five_hour(windows),
                long_window: shown_long_window(windows),
                source,
                observed_at_ms: Some(now_ms),
                received_at_ms: Some(now_ms),
                source_file: None,
            },
        )
    }
}

/// What an optional snapshot holds.
pub open spec fn snapshot_view(snapshot: Option<QuotaSnapshot>) -> Option<QuotaSnapshotView> {
    match snapshot {
        Some(snapshot) => Some(snapshot@),
        None => None,
    }
}

/// Looking for the first window of a class, one more window matters only if none was found.
pub proof fn lemma_first_of_push(
    windows: Seq<QuotaWindowView>,
    more: QuotaWindowView,
    class: WindowClass,
)
    ensures
        first_of(windows.push(more), class) == (if first_of(windows, class) is Some {
            first_of(windows, class)
        } else if class_of(more) == class {
            Some(more)
        } else {
            None
        }),
    decreases windows.len(),
{
    reveal_with_fuel(first_of, 2);
    if windows.len() > 0 {
        assert(windows.push(more).drop_first() =~= windows.drop_first().push(more));
        lemma_first_of_push(windows.drop_first(), more, class);
    } else {
        assert(windows.push(more).drop_first() =~= windows);
    }
}

/// Builds a snapshot from windows.
pub fn classify_windows(windows: Vec<QuotaWindow>, source: &str, now_ms: i64) -> (snapshot: Option<
    QuotaSnapshot,
>)
    ensures
        snapshot_view(snapshot) == classified(window_views(windows@), source@, now_ms),
{
    let ghost all = window_views(windows@);
    let ghost given = windows@;
    let mut five_hour: Option<QuotaWindow> = None;
    let mut long_window: Option<QuotaWindow> = None;
    assert(all.take(0) =~= Seq::empty());
    for found in it: windows
        invariant
            it.seq() == given,
            all == window_views(given),
            window_view(five_hour) == shown_five_hour(all.take(it.index() as int)),
            window_view(long_window) == shown_long_window(all.take(it.index() as int)),
    {
        let ghost i = it.index() as int;
        let ghost past = all.take(i);
        proof {
            assert(all[i] == found@);
            assert(all.take(i + 1) =~= past.push(found@));
            assert(past.push(found@).drop_last() =~= past);
            lemma_first_of_push(past, found@, WindowClass::Long);
        }
        let mut window: QuotaWindow = found;
        match window_class(&window) {
            WindowClass::FiveHour => {
                window.kind = "five-hour".to_owned();
                five_hour = Some(window);
            },
            WindowClass::Weekly => {
                window.kind = "weekly".to_owned();
                long_window = Some(window);
            },
            WindowClass::Long => {
                window.kind = "long-window".to_owned();
                if long_window.is_none() {
                    long_window = Some(window);
                }
            },
            WindowClass::Other => {},
        }
    }
    assert(all.take(all.len() as int) =~= all);
    if five_hour.is_some() || long_window.is_some() {
        Some(
            QuotaSnapshot {
                five_hour,
                long_window,
                source: source.to_owned(),
                observed_at_ms: Some(now_ms),
                received_at_ms: Some(now_ms),
                source_file: None,
            },
        )
    } else {
        None
    }
}

/// Limits without an identifier belong to Codex, as those do that name it.
pub open spec fn codex_limits(limits: Json) -> bool {
    match limits.member("limitId"@) {
        Some(Json::Text(id)) => id@ == "codex"@,
        _ => true,
    }
}

/// The bucket that the app server keeps for Codex among those by identifier.
pub open spec fn identified_bucket(result: Json) -> Option<Json> {
    match result.member("rateLimitsByLimitId"@) {
        Some(all) => all.member("codex"@),
        None => None,
    }
}

/// The general limits of the app server, where they are those of Codex.
pub open spec fn general_bucket(result: Json) -> Option<Json> {
    match result.member("rateLimits"@) {
        Some(limits) if codex_limits(limits) => Some(limits),
        _ => None,
    }
}

/// The bucket of a response that holds the Codex quota.
pub open spec fn codex_bucket(response: Json) -> Option<Json> {
    match response.member("result"@) {
        Some(result) => if identified_bucket(result) is Some {
            identified_bucket(result)
        } else {
            general_bucket(result)
        },
        None => None,
    }
}

/// Where in a response the Codex quota stands.
pub open spec fn bucket_source(response: Json) -> Option<Seq<char>> {
    match response.member("result"@) {
        Some(result) => if identified_bucket(result) is Some {
            Some("rateLimitsByLimitId.codex"@)
        } else if general_bucket(result) is Some {
            Some("rateLimits fallback"@)
        } else {
            None
        },
        None => None,
    }
}

fn find_identified<'a>(result: &'a Json) -> (found: Option<&'a Json>)
    ensures
        match found {
            Some(bucket) => identified_bucket(*result) == Some(*bucket),
            None => identified_bucket(*result) is None,
        },
{
    match result.get("rateLimitsByLimitId") {
        Some(all) => all.get("codex"),
        None => None,
    }
}

fn find_general<'a>(result: &'a Json) -> (found: Option<&'a Json>)
    ensures
        match found {
            Some(bucket) => general_bucket(*result) == Some(*bucket),
            None => general_bucket(*result) is None,
        },
{
    match result.get("rateLimits") {
        Some(limits) => {
            if let Some(id) = limits.get("limitId") {
                if let Some(text) = id.as_text() {
                    if !same_text(text, "codex") {
                        return None;
                    }
                }
            }
            Some(limits)
        },
        None => None,
    }
}

/// The snapshot in a response: of the windows in the Codex bucket.
pub open spec fn response_snapshot(response: Json, now_ms: i64) -> Option<QuotaSnapshotView> {
    match codex_bucket(response) {
        Some(bucket) => classified(windows_in(bucket), "app-server"@, now_ms),
        None => None,
    }
}

/// Reads the quota from a response of the app server.
pub fn parse_app_server_response(response: &Json, now_ms: i64) -> (snapshot: Option<QuotaSnapshot>)
    ensures
        snapshot_view(snapshot) == response_snapshot(*response, now_ms),
{
    let result: &Json = match response.get("result") {
        Some(result) => result,
        None => {
            return None;
        },
    };
    let bucket: &Json = match find_identified(result) {
        Some(bucket) => bucket,
        None => match find_general(result) {
            Some(bucket) => bucket,
            None => {
                return None;
            },
        },
    };
    let mut windows: Vec<QuotaWindow> = Vec::new();
    find_windows(bucket, &mut windows);
    assert(window_views(windows@) =~= windows_in(*bucket));
    classify_windows(windows, "app-server", now_ms)
}

/// Says where in a response of the app server the quota stands.
pub fn app_server_bucket_source(response: &Json) -> (source: Option<&'static str>)
    ensures
        match source {
            Some(source) => bucket_source(*response) == Some(source@),
            None => bucket_source(*response) is None,
        },
{
    let result: &Json = match response.get("result") {
        Some(result) => result,
        None => {
            return None;
        },
    };
    if find_identified(result).is_some() {
        return Some("rateLimitsByLimitId.codex");
    }
    if find_general(result).is_some() {
        Some("rateLimits fallback")
    } else {
        None
    }
}

/// The rank of a source: live data before session files before the cache before anything else.
pub open spec fn rank(source: Seq<char>) -> u8 {
    if source == "app-server"@ {
        3
    } else if source == "session"@ {
        2
    } else if source == "cache"@ {
        1
    } else {
        0
    }
}

pub fn source_rank(source: &str) -> (result: u8)
    ensures
        result == rank(source@),
{
    if same_text(source, "app-server") {
        3
    } else if same_text(source, "session") {
        2
    } else if same_text(source, "cache") {
        1
    } else {
        0
    }
}

/// A snapshot gives way to one whose source ranks at least as high.
pub open spec fn replaces(current: Option<QuotaSnapshotView>, candidate: QuotaSnapshotView) -> bool {
    match current {
        Some(current) => rank(candidate.source) >= rank(current.source),
        None => true,
    }
}

/// Whether a candidate takes the place of the current snapshot.
pub fn should_replace(current: Option<&QuotaSnapshot>, candidate: &QuotaSnapshot) -> (result: bool)
    ensures
        result == match current {
            Some(current) => replaces(Some(current@), candidate@),
            None => replaces(None, candidate@),
        },
{
    match current {
        Some(current) => source_rank(candidate.source.as_str()) >= source_rank(
            current.source.as_str(),
        ),
        None => true,
    }
}

/// What remains, where it follows from what is used, is between zero and one hundred percent.
pub proof fn law_derived_percentage_is_clamped(used: Binary64)
    ensures
        0 <= binary64::remaining_units(used) <= 100 * binary64::one(),
{
}

/// A whole percentage used leaves exactly the rest of one hundred.
pub proof fn law_whole_percentages_add_up(used: Binary64, percent: int)
    requires
        0 <= percent <= 100,
        used.units() == percent * binary64::one(),
    ensures
        binary64::remaining_units(used) == (100 - percent) * binary64::one(),
{
    binary64::lemma_rounded_whole((100 - percent) as nat);
    assert(100 * binary64::one() - percent * binary64::one() == (100 - percent) * binary64::one())
        by (nonlinear_arith);
    assert(0 <= (100 - percent) * binary64::one() <= 100 * binary64::one()) by (nonlinear_arith)
        requires
            0 <= percent <= 100,
    ;
}

/// A reset time in whole seconds becomes the same time in milliseconds.
pub proof fn law_seconds_become_milliseconds(time: Binary64, seconds: int)
    requires
        0 < seconds < 1_000_000_000_000,
        time.units() == seconds * binary64::one(),
    ensures
        time.epoch_millis() == Some(seconds * 1000),
{
    let one = binary64::one() as int;
    binary64::lemma_one_positive();
    assert(0 < seconds * one < 1_000_000_000_000 * one) by (nonlinear_arith)
        requires
            0 < seconds < 1_000_000_000_000,
            one > 0,
    ;
    assert(time.magnitude() == seconds * one);
    assert(time.magnitude() * 1000 == seconds * 1000 * one) by (nonlinear_arith)
        requires
            time.magnitude() == seconds * one,
    ;
    binary64::lemma_rounded_whole((seconds * 1000) as nat);
    binary64::lemma_whole_over_one((seconds * 1000) as nat);
}

/// A reset time in milliseconds is kept.
pub proof fn law_milliseconds_are_preserved(time: Binary64, millis: int)
    requires
        1_000_000_000_000 <= millis <= i64::MAX,
        time.units() == millis * binary64::one(),
    ensures
        time.epoch_millis() == Some(millis),
{
    let one = binary64::one() as int;
    binary64::lemma_one_positive();
    assert(millis * one >= 1_000_000_000_000 * one && millis * one > 0) by (nonlinear_arith)
        requires
            1_000_000_000_000 <= millis,
            one > 0,
    ;
    assert(time.magnitude() == millis * one);
    binary64::lemma_whole_over_one(millis as nat);
}

/// Windows make a snapshot exactly if one of them lasts five hours or longer, with tolerance.
pub proof fn law_snapshot_needs_a_known_window(
    windows: Seq<QuotaWindowView>,
    source: Seq<char>,
    now_ms: i64,
)
    ensures
        classified(windows, source, now_ms) is Some <==> exists|i: int|
            0 <= i < windows.len() && class_of(#[trigger] windows[i]) != WindowClass::Other,
{
    lemma_last_of_found(windows, WindowClass::FiveHour);
    lemma_last_of_found(windows, WindowClass::Weekly);
    lemma_first_of_found(windows, WindowClass::Long);
}

proof fn lemma_last_of_found(windows: Seq<QuotaWindowView>, class: WindowClass)
    ensures
        last_of(windows, class) is Some <==> exists|i: int|
            0 <= i < windows.len() && class_of(#[trigger] windows[i]) == class,
    decreases windows.len(),
{
    if windows.len() > 0 {
        let rest = windows.drop_last();
        lemma_last_of_found(rest, class);
        if last_of(rest, class) is Some {
            let i = choose|i: int| 0 <= i < rest.len() && class_of(#[trigger] rest[i]) == class;
            assert(class_of(windows[i]) == class);
        }
        assert forall|i: int|
            0 <= i < windows.len() && class_of(#[trigger] windows[i]) == class implies last_of(
            windows,
            class,
        ) is Some by {
            if i < rest.len() {
                assert(class_of(rest[i]) == class);
            }
        }
    }
}

proof fn lemma_first_of_found(windows: Seq<QuotaWindowView>, class: WindowClass)
    ensures
        first_of(windows, class) is Some <==> exists|i: int|
            0 <= i < windows.len() && class_of(#[trigger] windows[i]) == class,
    decreases windows.len(),
{
    if windows.len() > 0 {
        let rest = windows.drop_first();
        lemma_first_of_found(rest, class);
        if first_of(rest, class) is Some {
            let i = choose|i: int| 0 <= i < rest.len() && class_of(#[trigger] rest[i]) == class;
            assert(class_of(windows[i + 1]) == class);
        }
        assert forall|i: int|
            0 <= i < windows.len() && class_of(#[trigger] windows[i]) == class implies first_of(
            windows,
            class,
        ) is Some by {
            if i > 0 {
                assert(class_of(rest[i - 1]) == class);
            }
        }
    }
}

/// A response with a snapshot also tells where its quota stands.
pub proof fn law_snapshot_has_a_bucket_source(response: Json, now_ms: i64)
    ensures
        bucket_source(response) is Some <==> codex_bucket(response) is Some,
        response_snapshot(response, now_ms) is Some ==> bucket_source(response) is Some,
{
}

/// The bucket kept for Codex by identifier wins over the general limits.
pub proof fn law_identified_bucket_wins(response: Json, result: Json, bucket: Json)
    requires
        response.member("result"@) == Some(result),
        identified_bucket(result) == Some(bucket),
    ensures
        codex_bucket(response) == Some(bucket),
{
}

/// Session data and the cache never take the place of live data, nor the cache that of
/// session data; data of the same source always does.
pub proof fn law_lower_sources_never_replace(current: QuotaSnapshotView, candidate: QuotaSnapshotView)
    ensures
        current.source == "app-server"@ && candidate.source != "app-server"@ ==> !replaces(
            Some(current),
            candidate,
        ),
        current.source == "session"@ && candidate.source == "cache"@ ==> !replaces(
            Some(current),
            candidate,
        ),
        candidate.source == "app-server"@ ==> replaces(Some(current), candidate),
        current.source == candidate.source ==> replaces(Some(current), candidate),
{
    lemma_sources_differ();
}

/// The names of the sources are different texts.
pub proof fn lemma_sources_differ()
    ensures
        "app-server"@ != "session"@,
        "app-server"@ != "cache"@,
        "session"@ != "cache"@,
        "app-server"@ != "none"@,
        "session"@ != "none"@,
        "cache"@ != "none"@,
{
    reveal_strlit("app-server");
    reveal_strlit("session");
    reveal_strlit("cache");
    reveal_strlit("none");
    assert("app-server"@[0] != "session"@[0]);
    assert("app-server"@[0] != "cache"@[0]);
    assert("session"@[0] != "cache"@[0]);
    assert("app-server"@[0] != "none"@[0]);
    assert("session"@[0] != "none"@[0]);
    assert("cache"@[0] != "none"@[0]);
}

/// A document stands directly in another: as a member of an object, whatever its key, or as an
/// item of a list.
pub open spec fn stands_in(value: Json, child: Json) -> bool {
    match value {
        Json::Object(members) => exists|i: int|
            0 <= i < members@.len() && (#[trigger] members@[i]).1 == child,
        Json::Array(items) => exists|i: int|
            0 <= i < items@.len() && #[trigger] items@[i] == child,
        _ => false,
    }
}

/// A document is reached from another through so many members and items.
pub open spec fn reaches(value: Json, inner: Json, depth: nat) -> bool
    decreases depth,
{
    if depth == 0 {
        value == inner
    } else {
        exists|child: Json| #[trigger]
            stands_in(value, child) && reaches(child, inner, (depth - 1) as nat)
    }
}

/// An object names a window: itself, where it says how much is used, or an object that is the
/// primary or secondary bucket of its rate limits.
pub open spec fn names_window(value: Json, window: Json) -> bool {
    ||| value == window && (value.member("usedPercent"@) is Some || value.member(
        "used_percent"@,
    ) is Some)
    ||| window is Object && (value.member("rate_limits"@) matches Some(limits) && (limits.member(
        "primary"@,
    ) == Some(window) || limits.member("secondary"@) == Some(window)))
    ||| window is Object && (value.member("rateLimits"@) matches Some(limits) && (limits.member(
        "primary"@,
    ) == Some(window) || limits.member("secondary"@) == Some(window)))
}

/// Every window that an object names is found, however deep and under whatever keys the object
/// stands.
pub proof fn law_every_window_is_found(value: Json, inner: Json, depth: nat, window: Json)
    requires
        reaches(value, inner, depth),
        names_window(inner, window),
    ensures
        windows_in(value).contains(window_of(window)),
    decreases depth,
{
    if depth == 0 {
        lemma_named_window_is_found(value, window);
    } else {
        let child = choose|child: Json| #[trigger]
            stands_in(value, child) && reaches(child, inner, (depth - 1) as nat);
        law_every_window_is_found(child, inner, (depth - 1) as nat, window);
        lemma_child_windows(value, child, window_of(window));
    }
}

proof fn lemma_named_window_is_found(value: Json, window: Json)
    requires
        names_window(value, window),
    ensures
        windows_in(value).contains(window_of(window)),
{
    let w = window_of(window);
    let a = bucket_list(value, "rate_limits"@, "primary"@);
    let b = bucket_list(value, "rate_limits"@, "secondary"@);
    let c = bucket_list(value, "rateLimits"@, "primary"@);
    let d = bucket_list(value, "rateLimits"@, "secondary"@);
    let own = own_window(value);
    law_windows_stand_in_order(value);
    if value is Object {
        let rest = value->Object_0@.map_values(
            |member: (String, Json)| windows_in(member.1),
        ).flatten();
        lemma_bucket_holds(value, "rate_limits"@, "primary"@, window);
        lemma_bucket_holds(value, "rate_limits"@, "secondary"@, window);
        lemma_bucket_holds(value, "rateLimits"@, "primary"@, window);
        lemma_bucket_holds(value, "rateLimits"@, "secondary"@, window);
        if own.len() > 0 && value == window {
            assert(own[0] == w);
        }
        lemma_part_of_sum(a + b + c + d, own, rest, w);
        lemma_part_of_sum(a + b, c, d, w);
        lemma_part_of_sum(a, b, Seq::empty(), w);
        assert(a + b + Seq::<QuotaWindowView>::empty() =~= a + b);
    }
}

proof fn lemma_bucket_holds(value: Json, key: Seq<char>, bucket: Seq<char>, window: Json)
    ensures
        window is Object && (value.member(key) matches Some(limits) && limits.member(bucket)
            == Some(window)) ==> bucket_list(value, key, bucket).contains(window_of(window)),
{
    let list = bucket_list(value, key, bucket);
    if window is Object && value.member(key) is Some && value.member(key)->0.member(bucket)
        == Some(window) {
        assert(list[0] == window_of(window));
    }
}

proof fn lemma_part_of_sum(
    a: Seq<QuotaWindowView>,
    b: Seq<QuotaWindowView>,
    c: Seq<QuotaWindowView>,
    window: QuotaWindowView,
)
    ensures
        a.contains(window) || b.contains(window) || c.contains(window) ==> (a + b + c).contains(
            window,
        ),
{
    let sum = a + b + c;
    if a.contains(window) {
        let i = choose|i: int| 0 <= i < a.len() && a[i] == window;
        assert(sum[i] == window);
    } else if b.contains(window) {
        let i = choose|i: int| 0 <= i < b.len() && b[i] == window;
        assert(sum[a.len() + i] == window);
    } else if c.contains(window) {
        let i = choose|i: int| 0 <= i < c.len() && c[i] == window;
        assert(sum[a.len() + b.len() + i] == window);
    }
}

proof fn lemma_child_windows(value: Json, child: Json, window: QuotaWindowView)
    requires
        stands_in(value, child),
        windows_in(child).contains(window),
    ensures
        windows_in(value).contains(window),
{
    match value {
        Json::Object(members) => {
            let i = choose|i: int|
                0 <= i < members@.len() && (#[trigger] members@[i]).1 == child;
            lemma_member_windows(members@, members@.len(), i, window);
            let inner = windows_in_members(members@, members@.len());
            let at = choose|at: int| 0 <= at < inner.len() && inner[at] == window;
            assert(windows_in(value)[object_windows(value).len() + at] == window);
        },
        Json::Array(items) => {
            let i = choose|i: int| 0 <= i < items@.len() && #[trigger] items@[i] == child;
            lemma_item_windows(items@, items@.len(), i, window);
        },
        _ => {},
    }
}

proof fn lemma_member_windows(
    members: Seq<(String, Json)>,
    count: nat,
    i: int,
    window: QuotaWindowView,
)
    requires
        0 <= i < count <= members.len(),
        windows_in(members[i].1).contains(window),
    ensures
        windows_in_members(members, count).contains(window),
    decreases count,
{
    let earlier = windows_in_members(members, (count - 1) as nat);
    let last = windows_in(members[count - 1].1);
    if i == count - 1 {
        let at = choose|at: int| 0 <= at < last.len() && last[at] == window;
        assert(windows_in_members(members, count)[earlier.len() + at] == window);
    } else {
        lemma_member_windows(members, (count - 1) as nat, i, window);
        let at = choose|at: int| 0 <= at < earlier.len() && earlier[at] == window;
        assert(windows_in_members(members, count)[at] == window);
    }
}

proof fn lemma_item_windows(items: Seq<Json>, count: nat, i: int, window: QuotaWindowView)
    requires
        0 <= i < count <= items.len(),
        windows_in(items[i]).contains(window),
    ensures
        windows_in_items(items, count).contains(window),
    decreases count,
{
    let earlier = windows_in_items(items, (count - 1) as nat);
    let last = windows_in(items[count - 1]);
    if i == count - 1 {
        let at = choose|at: int| 0 <= at < last.len() && last[at] == window;
        assert(windows_in_items(items, count)[earlier.len() + at] == window);
    } else {
        lemma_item_windows(items, (count - 1) as nat, i, window);
        let at = choose|at: int| 0 <= at < earlier.len() && earlier[at] == window;
        assert(windows_in_items(items, count)[at] == window);
    }
}

/// The window in a bucket of the rate limits under a key, as a list.
pub open spec fn bucket_list(value: Json, key: Seq<char>, bucket: Seq<char>) -> Seq<
    QuotaWindowView,
> {
    match value.member(key) {
        Some(limits) => match limits.member(bucket) {
            Some(window) => if window is Object {
                seq![window_of(window)]
            } else {
                Seq::empty()
            },
            None => Seq::empty(),
        },
        None => Seq::empty(),
    }
}

/// Nothing else is found: first come the windows that an object names, its rate limits before the
/// object itself, then those of its members one after the other; those of a list are the windows
/// of its items one after the other; no other document has any.
pub proof fn law_windows_stand_in_order(value: Json)
    ensures
        match value {
            Json::Object(members) => windows_in(value) == bucket_list(
                value,
                "rate_limits"@,
                "primary"@,
            ) + bucket_list(value, "rate_limits"@, "secondary"@) + bucket_list(
                value,
                "rateLimits"@,
                "primary"@,
            ) + bucket_list(value, "rateLimits"@, "secondary"@) + (if value.member(
                "usedPercent"@,
            ) is Some || value.member("used_percent"@) is Some {
                seq![window_of(value)]
            } else {
                Seq::empty()
            }) + members@.map_values(|member: (String, Json)| windows_in(member.1)).flatten(),
            Json::Array(items) => windows_in(value) == items@.map_values(
                |item: Json| windows_in(item),
            ).flatten(),
            _ => windows_in(value).len() == 0,
        },
{
    match value {
        Json::Object(members) => {
            lemma_members_flat(members@, members@.len());
            assert(members@.take(members@.len() as int) =~= members@);
            let flat = members@.map_values(
                |member: (String, Json)| windows_in(member.1),
            ).flatten();
            assert(windows_in(value) =~= object_windows(value) + flat);
            assert(object_windows(value) =~= bucket_list(value, "rate_limits"@, "primary"@)
                + bucket_list(value, "rate_limits"@, "secondary"@) + bucket_list(
                value,
                "rateLimits"@,
                "primary"@,
            ) + bucket_list(value, "rateLimits"@, "secondary"@) + own_window(value));
        },
        Json::Array(items) => {
            lemma_items_flat(items@, items@.len());
            assert(items@.take(items@.len() as int) =~= items@);
        },
        _ => {},
    }
}

proof fn lemma_members_flat(members: Seq<(String, Json)>, count: nat)
    requires
        count <= members.len(),
    ensures
        windows_in_members(members, count) == members.take(count as int).map_values(
            |member: (String, Json)| windows_in(member.1),
        ).flatten(),
    decreases count,
{
    let f = |member: (String, Json)| windows_in(member.1);
    let lists = members.take(count as int).map_values(f);
    if count == 0 {
        assert(lists.len() == 0);
        assert(lists.flatten() =~= Seq::empty());
    } else {
        lemma_members_flat(members, (count - 1) as nat);
        let earlier = members.take(count - 1).map_values(f);
        assert(lists =~= earlier.push(windows_in(members[count - 1].1)));
        earlier.lemma_flatten_push(windows_in(members[count - 1].1));
    }
}

proof fn lemma_items_flat(items: Seq<Json>, count: nat)
    requires
        count <= items.len(),
    ensures
        windows_in_items(items, count) == items.take(count as int).map_values(
            |item: Json| windows_in(item),
        ).flatten(),
    decreases count,
{
    let f = |item: Json| windows_in(item);
    let lists = items.take(count as int).map_values(f);
    if count == 0 {
        assert(lists.len() == 0);
        assert(lists.flatten() =~= Seq::empty());
    } else {
        lemma_items_flat(items, (count - 1) as nat);
        let earlier = items.take(count - 1).map_values(f);
        assert(lists =~= earlier.push(windows_in(items[count - 1])));
        earlier.lemma_flatten_push(windows_in(items[count - 1]));
    }
}

/// A window lasts a number of minutes within limits.
pub open spec fn lasts(window: QuotaWindowView, low: int, high: int) -> bool {
    window.window_duration_mins matches Some(minutes) && low <= minutes <= high
}

/// A window that lasts that long stands in a list.
pub open spec fn any_lasts(windows: Seq<QuotaWindowView>, low: int, high: int) -> bool {
    exists|i: int| 0 <= i < windows.len() && lasts(#[trigger] windows[i], low, high)
}

/// A window is the last one in a list that lasts that long.
pub open spec fn last_lasting(
    windows: Seq<QuotaWindowView>,
    low: int,
    high: int,
    window: QuotaWindowView,
) -> bool {
    exists|i: int|
        0 <= i < windows.len() && #[trigger] windows[i] == window && lasts(windows[i], low, high)
            && forall|j: int| i < j < windows.len() ==> !lasts(#[trigger] windows[j], low, high)
}

/// A window is the first one in a list that lasts that long.
pub open spec fn first_lasting(
    windows: Seq<QuotaWindowView>,
    low: int,
    high: int,
    window: QuotaWindowView,
) -> bool {
    exists|i: int|
        0 <= i < windows.len() && #[trigger] windows[i] == window && lasts(windows[i], low, high)
            && forall|j: int| 0 <= j < i ==> !lasts(#[trigger] windows[j], low, high)
}

/// A shown window is a window under the name of its kind.
pub open spec fn shown_as(
    shown: Option<QuotaWindowView>,
    window: QuotaWindowView,
    kind: Seq<char>,
) -> bool {
    shown matches Some(shown) && shown.kind == kind && shown.used_percent == window.used_percent
        && shown.remaining_percent == window.remaining_percent && shown.resets_at_ms
        == window.resets_at_ms && shown.window_duration_mins == window.window_duration_mins
}

/// A snapshot shows the last window of 295 to 305 minutes as the five-hour one, and as the long
/// one the last of 10070 to 10090 minutes, or else the first of 306 minutes and more, each
/// whatever else is there. There is a snapshot exactly if some window lasts 295 minutes or more.
/// It says where it comes from and when.
pub proof fn law_a_snapshot_shows_its_windows(
    windows: Seq<QuotaWindowView>,
    source: Seq<char>,
    now_ms: i64,
)
    ensures
        classified(windows, source, now_ms) is Some <==> any_lasts(windows, 295, u64::MAX as int),
        classified(windows, source, now_ms) matches Some(snapshot) ==> {
            &&& snapshot.source == source
            &&& snapshot.observed_at_ms == Some(now_ms)
            &&& snapshot.received_at_ms == Some(now_ms)
            &&& snapshot.source_file is None
            &&& snapshot.five_hour is Some <==> any_lasts(windows, 295, 305)
            &&& snapshot.long_window is Some <==> any_lasts(windows, 306, u64::MAX as int)
        },
        forall|window: QuotaWindowView| #[trigger]
            last_lasting(windows, 295, 305, window) ==> shown_as(
                classified(windows, source, now_ms)->0.five_hour,
                window,
                "five-hour"@,
            ),
        forall|window: QuotaWindowView| #[trigger]
            last_lasting(windows, 10070, 10090, window) ==> shown_as(
                classified(windows, source, now_ms)->0.long_window,
                window,
                "weekly"@,
            ),
        !any_lasts(windows, 10070, 10090) ==> forall|window: QuotaWindowView| #[trigger]
            first_lasting(windows, 306, u64::MAX as int, window) ==> shown_as(
                classified(windows, source, now_ms)->0.long_window,
                window,
                "long-window"@,
            ),
{
    lemma_last_of_index(windows, WindowClass::FiveHour);
    lemma_last_of_index(windows, WindowClass::Weekly);
    lemma_first_of_index(windows, WindowClass::Long);
    law_snapshot_needs_a_known_window(windows, source, now_ms);
    lemma_last_of_found(windows, WindowClass::FiveHour);
    lemma_last_of_found(windows, WindowClass::Weekly);
    lemma_first_of_found(windows, WindowClass::Long);
    assert forall|i: int| 0 <= i < windows.len() implies {
        &&& class_of(#[trigger] windows[i]) == WindowClass::FiveHour <==> lasts(windows[i], 295, 305)
        &&& class_of(windows[i]) == WindowClass::Weekly <==> lasts(windows[i], 10070, 10090)
        &&& class_of(windows[i]) == WindowClass::Long <==> lasts(windows[i], 306, u64::MAX as int)
            && !lasts(windows[i], 10070, 10090)
        &&& class_of(windows[i]) != WindowClass::Other <==> lasts(windows[i], 295, u64::MAX as int)
    } by {}
}

proof fn lemma_last_of_index(windows: Seq<QuotaWindowView>, class: WindowClass)
    ensures
        last_of(windows, class) matches Some(window) ==> exists|i: int|
            0 <= i < windows.len() && #[trigger] windows[i] == window && class_of(windows[i]) == class
                && forall|j: int| i < j < windows.len() ==> class_of(#[trigger] windows[j]) != class,
    decreases windows.len(),
{
    if windows.len() > 0 {
        let rest = windows.drop_last();
        lemma_last_of_index(rest, class);
        if class_of(windows.last()) == class {
            assert(windows[windows.len() - 1] == windows.last());
        } else if let Some(window) = last_of(rest, class) {
            let i = choose|i: int|
                0 <= i < rest.len() && #[trigger] rest[i] == window && class_of(rest[i]) == class
                    && forall|j: int| i < j < rest.len() ==> class_of(#[trigger] rest[j]) != class;
            assert(windows[i] == window);
            assert forall|j: int| i < j < windows.len() implies class_of(#[trigger] windows[j])
                != class by {
                if j < rest.len() {
                    assert(class_of(rest[j]) != class);
                }
            }
        }
    }
}

proof fn lemma_first_of_index(windows: Seq<QuotaWindowView>, class: WindowClass)
    ensures
        first_of(windows, class) matches Some(window) ==> exists|i: int|
            0 <= i < windows.len() && #[trigger] windows[i] == window && class_of(windows[i]) == class
                && forall|j: int| 0 <= j < i ==> class_of(#[trigger] windows[j]) != class,
    decreases windows.len(),
{
    if windows.len() > 0 {
        let rest = windows.drop_first();
        lemma_first_of_index(rest, class);
        if class_of(windows.first()) == class {
            assert(windows[0] == windows.first());
        } else if let Some(window) = first_of(rest, class) {
            let i = choose|i: int|
                0 <= i < rest.len() && #[trigger] rest[i] == window && class_of(rest[i]) == class
                    && forall|j: int| 0 <= j < i ==> class_of(#[trigger] rest[j]) != class;
            assert(windows[i + 1] == window);
            assert forall|j: int| 0 <= j < i + 1 implies class_of(#[trigger] windows[j])
                != class by {
                if j > 0 {
                    assert(class_of(rest[j - 1]) != class);
                }
            }
        }
    }
}

/// The quota in a response is that of the bucket kept for Codex by identifier, where there is
/// one, and its place is told.
pub proof fn law_the_codex_bucket_is_read(
    response: Json,
    result: Json,
    all: Json,
    bucket: Json,
    now_ms: i64,
)
    requires
        response.member("result"@) == Some(result),
        result.member("rateLimitsByLimitId"@) == Some(all),
        all.member("codex"@) == Some(bucket),
    ensures
        response_snapshot(response, now_ms) == classified(
            windows_in(bucket),
            "app-server"@,
            now_ms,
        ),
        bucket_source(response) == Some("rateLimitsByLimitId.codex"@),
{
}

/// Without such a bucket the general limits are read, unless they name another identifier; without
/// either there is no quota.
pub proof fn law_general_limits_are_read_next(response: Json, result: Json, now_ms: i64)
    requires
        response.member("result"@) == Some(result),
        result.member("rateLimitsByLimitId"@) matches Some(all) ==> all.member("codex"@) is None,
    ensures
        match result.member("rateLimits"@) {
            Some(limits) => if limits.member("limitId"@) matches Some(Json::Text(id)) && id@
                != "codex"@ {
                response_snapshot(response, now_ms) is None && bucket_source(response) is None
            } else {
                response_snapshot(response, now_ms) == classified(
                    windows_in(limits),
                    "app-server"@,
                    now_ms,
                ) && bucket_source(response) == Some("rateLimits fallback"@)
            },
            None => response_snapshot(response, now_ms) is None && bucket_source(response) is None,
        },
{
}

/// A response without a result holds no quota.
pub proof fn law_no_result_no_quota(response: Json, now_ms: i64)
    requires
        response.member("result"@) is None,
    ensures
        response_snapshot(response, now_ms) is None,
        bucket_source(response) is None,
{
}

/// A bucket with a five-hour window and a longer one in any two of its members gives a snapshot
/// with both, in particular one with a primary and a secondary window.
pub proof fn law_both_windows_of_a_bucket_are_shown(
    bucket: Json,
    first_key: Seq<char>,
    first: Json,
    second_key: Seq<char>,
    second: Json,
    source: Seq<char>,
    now_ms: i64,
)
    requires
        bucket.member(first_key) == Some(first),
        first.member("usedPercent"@) is Some || first.member("used_percent"@) is Some,
        lasts(window_of(first), 295, 305),
        bucket.member(second_key) == Some(second),
        second.member("usedPercent"@) is Some || second.member("used_percent"@) is Some,
        lasts(window_of(second), 306, u64::MAX as int),
    ensures
        classified(windows_in(bucket), source, now_ms) matches Some(snapshot)
            && snapshot.five_hour is Some && snapshot.long_window is Some,
{
    lemma_member_stands_in(bucket, first_key);
    lemma_member_stands_in(bucket, second_key);
    reveal_with_fuel(reaches, 2);
    assert(reaches(bucket, first, 1));
    assert(reaches(bucket, second, 1));
    law_every_window_is_found(bucket, first, 1, first);
    law_every_window_is_found(bucket, second, 1, second);
    let windows = windows_in(bucket);
    let i = choose|i: int| 0 <= i < windows.len() && windows[i] == window_of(first);
    let j = choose|j: int| 0 <= j < windows.len() && windows[j] == window_of(second);
    assert(lasts(windows[i], 295, 305) && lasts(windows[i], 295, u64::MAX as int));
    assert(lasts(windows[j], 306, u64::MAX as int));
    law_a_snapshot_shows_its_windows(windows, source, now_ms);
}

proof fn lemma_member_stands_in(value: Json, key: Seq<char>)
    requires
        value.member(key) is Some,
    ensures
        stands_in(value, value.member(key)->0),
{
    crate::json::law_a_member_is_the_first_with_its_key(value, key);
}

/// The number that a member of a document holds.
pub open spec fn held_number(value: Json, key: Seq<char>) -> Option<Binary64> {
    match value.member(key) {
        Some(Json::Number(number)) => number.double,
        _ => None,
    }
}

/// The first of the keys under which a document holds a number holds this one.
pub open spec fn first_held(value: Json, keys: Seq<Seq<char>>, held: Binary64) -> bool {
    exists|i: int|
        0 <= i < keys.len() && held_number(value, #[trigger] keys[i]) == Some(held) && forall|j: int|
            0 <= j < i ==> held_number(value, #[trigger] keys[j]) is None
}

/// A document holds a number under none of the keys.
pub open spec fn none_held(value: Json, keys: Seq<Seq<char>>) -> bool {
    forall|i: int| 0 <= i < keys.len() ==> held_number(value, #[trigger] keys[i]) is None
}

proof fn lemma_first_number(value: Json, keys: Seq<Seq<char>>)
    ensures
        match first_number(value, keys) {
            Some(held) => first_held(value, keys, held),
            None => none_held(value, keys),
        },
    decreases keys.len(),
{
    if keys.len() > 0 {
        let rest = keys.drop_first();
        lemma_first_number(value, rest);
        if held_number(value, keys[0]) is None {
            match first_number(value, rest) {
                Some(held) => {
                    let i = choose|i: int|
                        0 <= i < rest.len() && held_number(value, #[trigger] rest[i]) == Some(held)
                            && forall|j: int|
                            0 <= j < i ==> held_number(value, #[trigger] rest[j]) is None;
                    assert(held_number(value, keys[i + 1]) == Some(held));
                    assert forall|j: int| 0 <= j < i + 1 implies held_number(
                        value,
                        #[trigger] keys[j],
                    ) is None by {
                        if j > 0 {
                            assert(held_number(value, rest[j - 1]) is None);
                        }
                    }
                },
                None => {
                    assert forall|i: int| 0 <= i < keys.len() implies held_number(
                        value,
                        #[trigger] keys[i],
                    ) is None by {
                        if i > 0 {
                            assert(held_number(value, rest[i - 1]) is None);
                        }
                    }
                },
            }
        } else {
            assert(held_number(value, keys[0]) == first_number(value, keys));
        }
    }
}

proof fn lemma_number(value: Json, keys: Seq<Seq<char>>)
    ensures
        none_held(value, keys) ==> number(value, keys) is None,
        forall|held: Binary64| #[trigger]
            first_held(value, keys, held) ==> number(value, keys) == (if held.finite() {
                Some(held)
            } else {
                None
            }),
{
    lemma_first_number(value, keys);
    assert forall|held: Binary64| #[trigger] first_held(value, keys, held) implies number(
        value,
        keys,
    ) == (if held.finite() {
        Some(held)
    } else {
        None
    }) by {
        let i = choose|i: int|
            0 <= i < keys.len() && held_number(value, #[trigger] keys[i]) == Some(held) && forall|
                j: int,
            |
                0 <= j < i ==> held_number(value, #[trigger] keys[j]) is None;
        match first_number(value, keys) {
            Some(found) => {
                let k = choose|k: int|
                    0 <= k < keys.len() && held_number(value, #[trigger] keys[k]) == Some(found)
                        && forall|j: int|
                        0 <= j < k ==> held_number(value, #[trigger] keys[j]) is None;
                if k < i {
                    assert(held_number(value, keys[k]) is None);
                }
                if i < k {
                    assert(held_number(value, keys[i]) is None);
                }
            },
            None => {
                assert(held_number(value, keys[i]) is None);
            },
        }
    }
}

/// What is used is the number under either spelling, camel case first, if it is finite.
pub proof fn law_what_is_used(value: Json, held: Binary64)
    ensures
        window_of(value).kind == Seq::<char>::empty(),
        none_held(value, seq!["usedPercent"@, "used_percent"@]) ==> window_of(
            value,
        ).used_percent is None,
        first_held(value, seq!["usedPercent"@, "used_percent"@], held) ==> window_of(
                value,
            ).used_percent == (if held.finite() {
                Some(held)
            } else {
                None
            }),
{
    lemma_number(value, seq!["usedPercent"@, "used_percent"@]);
}

/// What remains is the number given for it, whatever is used. Where none is given it is the rest
/// of one hundred percent, up to rounding, and never outside zero to one hundred; it is unknown
/// where nothing is known of what is used.
pub proof fn law_what_remains(value: Json, held: Binary64)
    ensures
        first_held(value, seq!["remainingPercent"@, "remaining_percent"@], held)
                && held.finite() ==> window_of(value).remaining_percent == Some(held),
        none_held(value, seq!["remainingPercent"@, "remaining_percent"@]) ==> match window_of(
            value,
        ).used_percent {
            Some(used) => window_of(value).remaining_percent matches Some(rest) && {
                let difference = 100 * binary64::one() - used.units();
                &&& rest.finite()
                &&& !rest.negative()
                &&& difference <= 0 ==> rest.units() == 0
                &&& difference >= 100 * binary64::one() ==> rest.units() == 100 * binary64::one()
                &&& 0 < difference < 100 * binary64::one() ==> {
                    &&& 0x20_0000_0000_0000 * (rest.units() - difference) <= difference
                    &&& 0x20_0000_0000_0000 * (difference - rest.units()) <= difference
                }
            },
            None => window_of(value).remaining_percent is None,
        },
{
    lemma_number(value, seq!["usedPercent"@, "used_percent"@]);
    lemma_number(value, seq!["remainingPercent"@, "remaining_percent"@]);
    if let Some(used) = window_of(value).used_percent {
        binary64::law_remaining_is_the_rest(used);
    }
}

/// The reset time is the number under the first of its names that holds one: seconds below 1e12,
/// milliseconds from there on, unknown where it is missing, not finite or not positive.
pub proof fn law_when_a_window_resets(value: Json, time: Binary64)
    ensures
        none_held(value, seq!["resetsAt"@, "resets_at"@, "resetAt"@, "reset_at"@]) ==> window_of(
            value,
        ).resets_at_ms is None,
        first_held(value, seq!["resetsAt"@, "resets_at"@, "resetAt"@, "reset_at"@], time) ==> {
                let reset = window_of(value).resets_at_ms;
                let one = binary64::one();
                &&& !time.finite() || time.units() <= 0 ==> reset is None
                &&& time.finite() && 1_000_000_000_000 * one <= time.units()
                    < 0x8000_0000_0000_0000 * one ==> (reset matches Some(millis) && millis * one
                    <= time.units() < (millis + 1) * one)
                &&& time.finite() && time.units() >= 0x8000_0000_0000_0000 * one ==> reset == Some(
                    i64::MAX,
                )
                &&& time.finite() && 0 < time.units() < 1_000_000_000_000 * one ==> (
                reset matches Some(millis) && millis * one <= time.units() * 1000 + one
                    && time.units() * 1000 < (millis + 1) * one)
            },
{
    let keys = seq!["resetsAt"@, "resets_at"@, "resetAt"@, "reset_at"@];
    lemma_number(value, keys);
    if first_held(value, keys, time) {
        if time.finite() {
            binary64::law_reset_times(time);
            assert(number(value, keys) == Some(time));
            if time.epoch_millis() is Some {
                let millis = time.epoch_millis()->0;
                assert(0 <= millis <= i64::MAX);
                assert((millis as i64) as int == millis);
            }
        }
    }
}

/// The duration is the number of whole minutes under the first of its names that holds a number,
/// zero for a negative one, and unknown where it is missing or not finite.
pub proof fn law_how_long_a_window_lasts(value: Json, held: Binary64)
    ensures
        none_held(
            value,
            seq!["windowDurationMins"@, "window_duration_mins"@, "windowMinutes"@, "window_minutes"@],
        ) ==> window_of(value).window_duration_mins is None,
        first_held(
                value,
                seq![
                    "windowDurationMins"@,
                    "window_duration_mins"@,
                    "windowMinutes"@,
                    "window_minutes"@,
                ],
                held,
            ) ==> {
                let duration = window_of(value).window_duration_mins;
                let one = binary64::one();
                &&& !held.finite() ==> duration is None
                &&& held.finite() && held.negative() ==> duration == Some(0u64)
                &&& held.finite() && !held.negative() && held.units() < 0x1_0000_0000_0000_0000
                    * one ==> (duration matches Some(minutes) && minutes * one <= held.units() < (
                minutes + 1) * one)
                &&& held.finite() && !held.negative() && held.units() >= 0x1_0000_0000_0000_0000
                    * one ==> duration == Some(u64::MAX)
            },
{
    let keys = seq![
        "windowDurationMins"@,
        "window_duration_mins"@,
        "windowMinutes"@,
        "window_minutes"@,
    ];
    lemma_number(value, keys);
    if first_held(value, keys, held) {
        if held.finite() {
            binary64::law_whole_part_is_the_floor(held);
            assert(0 <= held.whole() <= u64::MAX);
        }
    }
}

/// Live data ranks before session files, these before the cache, and the cache before any other
/// source. A snapshot gives way exactly to one of the same rank or a higher one, and where nothing
/// is shown anything is.
pub proof fn law_sources_are_ranked(current: QuotaSnapshotView, candidate: QuotaSnapshotView)
    ensures
        replaces(None, candidate),
        current.source == "app-server"@ ==> (replaces(Some(current), candidate)
            <==> candidate.source == "app-server"@),
        current.source == "session"@ ==> (replaces(Some(current), candidate) <==> candidate.source
            == "app-server"@ || candidate.source == "session"@),
        current.source == "cache"@ ==> (replaces(Some(current), candidate) <==> candidate.source
            == "app-server"@ || candidate.source == "session"@ || candidate.source == "cache"@),
        current.source != "app-server"@ && current.source != "session"@ && current.source
            != "cache"@ ==> replaces(Some(current), candidate),
{
    lemma_sources_differ();
}

/// Windows fall into classes by their minutes alone.
pub proof fn law_classes_go_by_duration(window: QuotaWindowView)
    ensures
        class_of(window) == WindowClass::FiveHour <==> lasts(window, 295, 305),
        class_of(window) == WindowClass::Weekly <==> lasts(window, 10070, 10090),
        class_of(window) == WindowClass::Long <==> lasts(window, 306, 10069) || lasts(
            window,
            10091,
            u64::MAX as int,
        ),
{
}

/// The last window of a class in a list is one of the list, of that class, with none of that class
/// after it; there is one exactly if the list has any.
pub proof fn law_the_last_of_a_class(windows: Seq<QuotaWindowView>, class: WindowClass)
    ensures
        last_of(windows, class) is Some <==> exists|i: int|
            0 <= i < windows.len() && class_of(#[trigger] windows[i]) == class,
        last_of(windows, class) matches Some(window) ==> exists|i: int|
            0 <= i < windows.len() && #[trigger] windows[i] == window && class_of(windows[i]) == class
                && forall|j: int| i < j < windows.len() ==> class_of(#[trigger] windows[j]) != class,
{
    lemma_last_of_found(windows, class);
    lemma_last_of_index(windows, class);
}

/// The first window of a class in a list is one of the list, of that class, with none of that
/// class before it; there is one exactly if the list has any.
pub proof fn law_the_first_of_a_class(windows: Seq<QuotaWindowView>, class: WindowClass)
    ensures
        first_of(windows, class) is Some <==> exists|i: int|
            0 <= i < windows.len() && class_of(#[trigger] windows[i]) == class,
        first_of(windows, class) matches Some(window) ==> exists|i: int|
            0 <= i < windows.len() && #[trigger] windows[i] == window && class_of(windows[i]) == class
                && forall|j: int| 0 <= j < i ==> class_of(#[trigger] windows[j]) != class,
{
    lemma_first_of_found(windows, class);
    lemma_first_of_index(windows, class);
}

} // verus!
