//! Quota from the session files that Codex leaves behind.

use crate::json;
use crate::json::{parse_json, Json};
use crate::quota;
use crate::quota::{
    classify_windows, find_windows, window_class, QuotaSnapshot, QuotaWindow, WindowClass,
};
use crate::text;
use crate::text::{has_prefix, has_suffix, rest_after_line_feed, split_lines};
use vstd::prelude::*;

verus! {

/// How many session files are looked at, newest first.
pub const MAX_FILES: usize = 20;

/// How many bytes at the end of a session file are read.
pub const MAX_TAIL_BYTES: u64 = 0x20_0000;

/// A file name of a session record.
pub open spec fn rollout_name(name: Seq<char>) -> bool {
    "rollout-"@.is_prefix_of(name) && ".jsonl"@.is_suffix_of(name)
}

pub fn is_rollout_name(name: &str) -> (result: bool)
    ensures
        result == rollout_name(name@),
{
    has_prefix(name, "rollout-") && has_suffix(name, ".jsonl")
}

/// Something in a directory. A file has a number, and a name where that is Unicode.
#[derive(Debug)]
pub enum Entry {
    Directory(Vec<Entry>),
    File { name: Option<String>, number: usize },
}

/// The numbers of the session records in an entry.
pub open spec fn rollouts_of(entry: Entry) -> Seq<usize>
    decreases entry, 0nat,
{
    match entry {
        Entry::Directory(entries) => rollouts_in(entries@, entries@.len()),
        Entry::File { name: Some(name), number } => if rollout_name(name@) {
            seq![number]
        } else {
            Seq::empty()
        },
        Entry::File { name: None, .. } => Seq::empty(),
    }
}

/// The numbers of the session records in the first `count` entries, in order.
pub open spec fn rollouts_in(entries: Seq<Entry>, count: nat) -> Seq<usize>
    decreases entries, count,
{
    if count == 0 || count > entries.len() {
        Seq::empty()
    } else {
        rollouts_in(entries, (count - 1) as nat) + rollouts_of(entries[count - 1])
    }
}

/// Appends the numbers of all session records in a directory and the directories below it.
pub fn collect_rollouts(entries: &Vec<Entry>, output: &mut Vec<usize>)
    ensures
        final(output)@ == old(output)@ + rollouts_in(entries@, entries@.len()),
    decreases entries,
{
    let ghost before = output@;
    let mut i: usize = 0;
    assert(output@ =~= before + rollouts_in(entries@, 0));
    while i < entries.len()
        invariant
            i <= entries@.len(),
            output@ == before + rollouts_in(entries@, i as nat),
        decreases entries.len() - i,
    {
        let ghost past = output@;
        match &entries[i] {
            Entry::Directory(inner) => {
                assert(decreases_to!(*entries => entries@));
                assert(decreases_to!(entries@ => entries@[i as int]));
                assert(decreases_to!(entries@[i as int] => entries@[i as int]->Directory_0));
                collect_rollouts(inner, output);
            },
            Entry::File { name, number } => {
                if let Some(name) = name {
                    if is_rollout_name(name.as_str()) {
                        output.push(*number);
                    }
                }
            },
        }
        assert(output@ =~= past + rollouts_of(entries@[i as int]));
        i = i + 1;
        assert(output@ =~= before + rollouts_in(entries@, i as nat));
    }
}

/// A file of that name and number is among the entries or somewhere below them.
pub open spec fn holds(entries: Seq<Entry>, name: Seq<char>, number: usize) -> bool
    decreases entries,
{
    exists|i: int|
        0 <= i < entries.len() && match #[trigger] entries[i] {
            Entry::Directory(inner) => holds(inner@, name, number),
            Entry::File { name: Some(found), number: at } => found@ == name && at == number,
            Entry::File { name: None, .. } => false,
        }
}

/// What is collected are the files with the name of a session record, at any depth.
pub proof fn law_rollouts_are_found_at_any_depth(entries: Seq<Entry>, number: usize)
    ensures
        rollouts_in(entries, entries.len()).contains(number) <==> exists|name: Seq<char>|
            rollout_name(name) && #[trigger] holds(entries, name, number),
{
    if rollouts_in(entries, entries.len()).contains(number) {
        lemma_rollouts_found(entries, entries.len(), number);
    }
    if exists|name: Seq<char>| rollout_name(name) && #[trigger] holds(entries, name, number) {
        let name = choose|name: Seq<char>|
            rollout_name(name) && #[trigger] holds(entries, name, number);
        lemma_held_is_found(entries, name, number);
    }
}

proof fn lemma_rollouts_found(entries: Seq<Entry>, count: nat, number: usize)
    requires
        count <= entries.len(),
        rollouts_in(entries, count).contains(number),
    ensures
        exists|name: Seq<char>| rollout_name(name) && #[trigger] holds(entries, name, number),
    decreases entries, count,
{
    let last = entries[count - 1];
    let earlier = rollouts_in(entries, (count - 1) as nat);
    let at = choose|at: int|
        0 <= at < rollouts_in(entries, count).len() && rollouts_in(entries, count)[at] == number;
    if at < earlier.len() {
        assert(earlier[at] == number);
        lemma_rollouts_found(entries, (count - 1) as nat, number);
    } else {
        assert(rollouts_of(last)[at - earlier.len()] == number);
        match last {
            Entry::Directory(inner) => {
                lemma_rollouts_found(inner@, inner@.len(), number);
                let name = choose|name: Seq<char>|
                    rollout_name(name) && #[trigger] holds(inner@, name, number);
                assert(holds(entries, name, number));
            },
            Entry::File { name: Some(name), .. } => {
                assert(holds(entries, name@, number));
            },
            Entry::File { name: None, .. } => {},
        }
    }
}

proof fn lemma_rollouts_of_part(entries: Seq<Entry>, count: nat, i: int, number: usize)
    requires
        0 <= i < count <= entries.len(),
        rollouts_of(entries[i]).contains(number),
    ensures
        rollouts_in(entries, count).contains(number),
    decreases count,
{
    let earlier = rollouts_in(entries, (count - 1) as nat);
    let last = rollouts_of(entries[count - 1]);
    if i == count - 1 {
        let at = choose|at: int| 0 <= at < last.len() && last[at] == number;
        assert(rollouts_in(entries, count)[earlier.len() + at] == number);
    } else {
        lemma_rollouts_of_part(entries, (count - 1) as nat, i, number);
        let at = choose|at: int| 0 <= at < earlier.len() && earlier[at] == number;
        assert(rollouts_in(entries, count)[at] == number);
    }
}

proof fn lemma_held_is_found(entries: Seq<Entry>, name: Seq<char>, number: usize)
    requires
        rollout_name(name),
        holds(entries, name, number),
    ensures
        rollouts_in(entries, entries.len()).contains(number),
    decreases entries,
{
    let i = choose|i: int|
        0 <= i < entries.len() && match #[trigger] entries[i] {
            Entry::Directory(inner) => holds(inner@, name, number),
            Entry::File { name: Some(found), number: at } => found@ == name && at == number,
            Entry::File { name: None, .. } => false,
        };
    match entries[i] {
        Entry::Directory(inner) => {
            lemma_held_is_found(inner@, name, number);
        },
        _ => {
            assert(rollouts_of(entries[i])[0] == number);
        },
    }
    lemma_rollouts_of_part(entries, entries.len(), i, number);
}

/// A later time of modification; an unknown one is earlier than any known one.
pub open spec fn later(a: Option<i128>, b: Option<i128>) -> bool {
    match (a, b) {
        (Some(a), Some(b)) => a > b,
        (Some(_), None) => true,
        _ => false,
    }
}

/// File `a` comes before file `b`: it is newer, or as new and stands later in the list.
pub open spec fn comes_first(modified: Seq<Option<i128>>, a: usize, b: usize) -> bool {
    later(modified[a as int], modified[b as int]) || (modified[a as int] == modified[b as int] && a
        > b)
}

/// The positions of all files, newest first.
pub open spec fn newest_order(order: Seq<usize>, modified: Seq<Option<i128>>) -> bool {
    &&& order.len() == modified.len()
    &&& forall|i: int| 0 <= i < order.len() ==> (#[trigger] order[i]) < modified.len()
    &&& forall|i: int, j: int|
        0 <= i < j < order.len() ==> comes_first(modified, #[trigger] order[i], #[trigger] order[j])
    &&& forall|k: usize| k < modified.len() ==> #[trigger] order.contains(k)
}

fn is_later(a: Option<i128>, b: Option<i128>) -> (result: bool)
    ensures
        result == later(a, b),
{
    match (a, b) {
        (Some(a), Some(b)) => a > b,
        (Some(_), None) => true,
        _ => false,
    }
}

/// The positions of files in a list, ordered by their times of modification, newest first.
pub fn newest_first(modified: &Vec<Option<i128>>) -> (order: Vec<usize>)
    ensures
        newest_order(order@, modified@),
{
    let mut order: Vec<usize> = Vec::new();
    let mut next: usize = 0;
    while next < modified.len()
        invariant
            next <= modified@.len(),
            order@.len() == next,
            forall|i: int| 0 <= i < order@.len() ==> (#[trigger] order@[i]) < next,
            forall|i: int, j: int|
                0 <= i < j < order@.len() ==> comes_first(
                    modified@,
                    #[trigger] order@[i],
                    #[trigger] order@[j],
                ),
            forall|k: usize| k < next ==> #[trigger] order@.contains(k),
        decreases modified.len() - next,
    {
        let mut at: usize = 0;
        while at < order.len() && is_later(modified[order[at]], modified[next])
            invariant
                at <= order@.len(),
                next < modified@.len(),
                forall|i: int| 0 <= i < order@.len() ==> (#[trigger] order@[i]) < next,
                forall|i: int|
                    0 <= i < at ==> later(
                        modified@[#[trigger] order@[i] as int],
                        modified@[next as int],
                    ),
            ensures
                at <= order@.len(),
                forall|i: int|
                    0 <= i < at ==> later(
                        modified@[#[trigger] order@[i] as int],
                        modified@[next as int],
                    ),
                at < order@.len() ==> !later(
                    modified@[order@[at as int] as int],
                    modified@[next as int],
                ),
            decreases order.len() - at,
        {
            at = at + 1;
        }
        let ghost before = order@;
        order.insert(at, next);
        proof {
            assert forall|i: int, j: int| 0 <= i < j < order@.len() implies comes_first(
                modified@,
                #[trigger] order@[i],
                #[trigger] order@[j],
            ) by {
                let a = if i < at {
                    before[i]
                } else if i == at {
                    next
                } else {
                    before[i - 1]
                };
                let b = if j < at {
                    before[j]
                } else if j == at {
                    next
                } else {
                    before[j - 1]
                };
                assert(order@[i] == a && order@[j] == b);
                if i == at {
                    assert(b < next);
                    if j - 1 > at {
                        assert(comes_first(modified@, before[at as int], before[j - 1]));
                    }
                }
            }
            assert forall|k: usize| k < next + 1 implies #[trigger] order@.contains(k) by {
                if k == next {
                    assert(order@[at as int] == k);
                } else {
                    assert(before.contains(k));
                    let i = choose|i: int| 0 <= i < before.len() && before[i] == k;
                    if i < at {
                        assert(order@[i] == k);
                    } else {
                        assert(order@[i + 1] == k);
                    }
                }
            }
        }
        next = next + 1;
    }
    order
}

/// There is one order of files, newest first.
pub proof fn law_newest_order_is_unique(a: Seq<usize>, b: Seq<usize>, modified: Seq<Option<i128>>)
    requires
        newest_order(a, modified),
        newest_order(b, modified),
    ensures
        a == b,
{
    lemma_same_order(a, b, modified, a.len() as int);
    assert(a =~= b);
}

proof fn lemma_same_order(a: Seq<usize>, b: Seq<usize>, modified: Seq<Option<i128>>, n: int)
    requires
        newest_order(a, modified),
        newest_order(b, modified),
        0 <= n <= a.len(),
    ensures
        forall|i: int| 0 <= i < n ==> a[i] == b[i],
    decreases n,
{
    if n > 0 {
        lemma_same_order(a, b, modified, n - 1);
        let x = a[n - 1];
        let y = b[n - 1];
        if x != y {
            assert(b.contains(x) && a.contains(y));
            let i = choose|i: int| 0 <= i < b.len() && b[i] == x;
            let j = choose|j: int| 0 <= j < a.len() && a[j] == y;
            if i < n - 1 {
                assert(a[i] == x);
                assert(comes_first(modified, a[i], a[n - 1]));
            }
            if j < n - 1 {
                assert(b[j] == y);
                assert(comes_first(modified, b[j], b[n - 1]));
            }
            assert(comes_first(modified, b[n - 1], b[i]));
            assert(comes_first(modified, a[n - 1], a[j]));
        }
    }
}

/// Where the end of a file starts that is at most so long.
pub open spec fn end_start(len: int, max_bytes: int) -> int {
    if len > max_bytes {
        len - max_bytes
    } else {
        0
    }
}

/// Where the part of a file starts that is read.
pub fn tail_start(len: u64, max_bytes: u64) -> (start: u64)
    ensures
        start == end_start(len as int, max_bytes as int),
        start as int == if len > max_bytes {
            len - max_bytes
        } else {
            0
        },
{
    if len > max_bytes {
        len - max_bytes
    } else {
        0
    }
}

/// What is used of a text that starts somewhere in a file.
pub open spec fn used_end(read: Seq<char>, start: int) -> Seq<char> {
    if start > 0 {
        text::after_line_feed(read)
    } else {
        read
    }
}

/// What is used of the end of a file: all of it, or, where it does not start with the file, what
/// follows the first, possibly incomplete, line.
pub fn read_tail(read: String, start: u64) -> (used: String)
    ensures
        used@ == used_end(read@, start as int),
        used@ == if start > 0 {
            text::after_line_feed(read@)
        } else {
            read@
        },
{
    if start > 0 {
        rest_after_line_feed(read.as_str())
    } else {
        read
    }
}

/// The windows in the document of a line, where the line is JSON.
pub open spec fn document_windows(document: Option<Json>) -> Seq<quota::QuotaWindowView> {
    match document {
        Some(value) => quota::windows_in(value),
        None => Seq::empty(),
    }
}

/// The window of a class that a document names: the last one, of long windows the first one.
pub open spec fn document_window(document: Option<Json>, class: WindowClass) -> Option<
    quota::QuotaWindowView,
> {
    if class == WindowClass::Long {
        quota::first_of(document_windows(document), class)
    } else {
        quota::last_of(document_windows(document), class)
    }
}

/// The window of a class among the documents of a session record: that of the latest document
/// that names one.
pub open spec fn latest_window(documents: Seq<Option<Json>>, class: WindowClass) -> Option<
    quota::QuotaWindowView,
>
    decreases documents.len(),
{
    if documents.len() == 0 {
        None
    } else if document_window(documents.last(), class) is Some {
        document_window(documents.last(), class)
    } else {
        latest_window(documents.drop_last(), class)
    }
}

/// An optional window as a list.
pub open spec fn listed(window: Option<quota::QuotaWindowView>) -> Seq<quota::QuotaWindowView> {
    match window {
        Some(window) => seq![window],
        None => Seq::empty(),
    }
}

/// The windows among documents that count: at most one of each class.
pub open spec fn windows_that_count(documents: Seq<Option<Json>>) -> Seq<quota::QuotaWindowView> {
    listed(latest_window(documents, WindowClass::FiveHour)) + listed(
        latest_window(documents, WindowClass::Weekly),
    ) + listed(latest_window(documents, WindowClass::Long))
}

/// The first window if there is one, else the second.
pub open spec fn either(
    first: Option<quota::QuotaWindowView>,
    second: Option<quota::QuotaWindowView>,
) -> Option<quota::QuotaWindowView> {
    if first is Some {
        first
    } else {
        second
    }
}

/// What the lines of a session record say, as far as they are JSON.
pub open spec fn parsed_lines(lines: Seq<Seq<char>>) -> Seq<Option<Json>> {
    lines.map_values(|line: Seq<char>| json::parsed_json(line))
}

/// The window of a class that a line names.
pub open spec fn line_window(line: Seq<char>, class: WindowClass) -> Option<quota::QuotaWindowView> {
    document_window(json::parsed_json(line), class)
}

/// The window of a class in a session record: that of the latest line that names one.
pub open spec fn file_window(lines: Seq<Seq<char>>, class: WindowClass) -> Option<
    quota::QuotaWindowView,
> {
    latest_window(parsed_lines(lines), class)
}

/// A later line decides over the lines before it, class by class.
pub proof fn law_later_line_decides(earlier: Seq<Seq<char>>, line: Seq<char>, class: WindowClass)
    ensures
        file_window(earlier.push(line), class) == (if line_window(line, class) is Some {
            line_window(line, class)
        } else {
            file_window(earlier, class)
        }),
{
    let all = parsed_lines(earlier.push(line));
    assert(all.last() == json::parsed_json(line));
    assert(all.drop_last() =~= parsed_lines(earlier));
}

/// Picks the window of a class from those of a line.
fn pick_window(windows: &Vec<QuotaWindow>, class: WindowClass) -> (found: Option<QuotaWindow>)
    ensures
        quota::window_view(found) == (if class == WindowClass::Long {
            quota::first_of(quota::window_views(windows@), class)
        } else {
            quota::last_of(quota::window_views(windows@), class)
        }),
{
    let ghost all = quota::window_views(windows@);
    let mut found: Option<QuotaWindow> = None;
    let mut i: usize = 0;
    while i < windows.len()
        invariant
            i <= windows@.len(),
            all == quota::window_views(windows@),
            quota::window_view(found) == (if class == WindowClass::Long {
                quota::first_of(all.take(i as int), class)
            } else {
                quota::last_of(all.take(i as int), class)
            }),
        decreases windows.len() - i,
    {
        proof {
            let past = all.take(i as int);
            assert(all.take(i + 1) =~= past.push(windows@[i as int]@));
            assert(past.push(windows@[i as int]@).drop_last() =~= past);
            quota::lemma_first_of_push(past, windows@[i as int]@, class);
        }
        if window_class(&windows[i]) == class && (class != WindowClass::Long || found.is_none()) {
            found = Some(windows[i].clone());
        }
        i = i + 1;
    }
    assert(all.take(i as int) =~= all);
    found
}

/// Takes the window of a class from the windows of an earlier line, unless a later line had one.
fn fill_window(slot: &mut Option<QuotaWindow>, windows: &Vec<QuotaWindow>, class: WindowClass)
    ensures
        quota::window_view(*final(slot)) == either(
            quota::window_view(*old(slot)),
            if class == WindowClass::Long {
                quota::first_of(quota::window_views(windows@), class)
            } else {
                quota::last_of(quota::window_views(windows@), class)
            },
        ),
{
    if slot.is_none() {
        *slot = pick_window(windows, class);
    }
}

/// The windows among the documents of a session record that count. The documents are walked from
/// the last to the first, and the first window found of each class stays.
pub fn latest_windows(documents: &Vec<Option<Json>>) -> (windows: Vec<QuotaWindow>)
    ensures
        quota::window_views(windows@) == windows_that_count(documents@),
{
    let ghost all = documents@;
    let mut five_hour: Option<QuotaWindow> = None;
    let mut weekly: Option<QuotaWindow> = None;
    let mut long: Option<QuotaWindow> = None;
    let mut left: usize = documents.len();
    assert(all.take(left as int) =~= all);
    while left > 0
        invariant
            left <= documents@.len(),
            all == documents@,
            latest_window(all, WindowClass::FiveHour) == either(
                quota::window_view(five_hour),
                latest_window(all.take(left as int), WindowClass::FiveHour),
            ),
            latest_window(all, WindowClass::Weekly) == either(
                quota::window_view(weekly),
                latest_window(all.take(left as int), WindowClass::Weekly),
            ),
            latest_window(all, WindowClass::Long) == either(
                quota::window_view(long),
                latest_window(all.take(left as int), WindowClass::Long),
            ),
        decreases left,
    {
        assert(all.take(left as int).drop_last() =~= all.take(left - 1));
        left = left - 1;
        let mut found: Vec<QuotaWindow> = Vec::new();
        if let Some(value) = &documents[left] {
            find_windows(value, &mut found);
        }
        assert(quota::window_views(found@) =~= document_windows(all[left as int]));
        fill_window(&mut five_hour, &found, WindowClass::FiveHour);
        fill_window(&mut weekly, &found, WindowClass::Weekly);
        fill_window(&mut long, &found, WindowClass::Long);
    }
    let mut windows: Vec<QuotaWindow> = Vec::new();
    if let Some(window) = five_hour {
        windows.push(window);
    }
    if let Some(window) = weekly {
        windows.push(window);
    }
    if let Some(window) = long {
        windows.push(window);
    }
    assert(quota::window_views(windows@) =~= windows_that_count(all));
    windows
}

/// Reads the lines of a session record as JSON, each for itself.
pub fn parse_lines(text: &str) -> (documents: Vec<Option<Json>>)
    ensures
        documents@ == parsed_lines(text::lines(text@)),
{
    let lines: Vec<String> = split_lines(text);
    let ghost all = text::texts(lines@);
    let mut documents: Vec<Option<Json>> = Vec::new();
    let mut i: usize = 0;
    while i < lines.len()
        invariant
            i <= lines@.len(),
            all == text::texts(lines@),
            documents@ == parsed_lines(all.take(i as int)),
        decreases lines.len() - i,
    {
        documents.push(parse_json(lines[i].as_str()));
        i = i + 1;
        assert(documents@ =~= parsed_lines(all.take(i as int)));
    }
    assert(all.take(i as int) =~= all);
    documents
}

/// The windows in a session record that count.
pub fn session_windows(text: &str) -> (windows: Vec<QuotaWindow>)
    ensures
        quota::window_views(windows@) == windows_that_count(parsed_lines(text::lines(text@))),
{
    latest_windows(&parse_lines(text))
}

/// The snapshot that the documents of a session record make up, observed when its file was
/// modified: of each class the window of the latest document that names one. A long window is
/// shown where no document names a weekly one.
pub open spec fn documents_snapshot(
    documents: Seq<Option<Json>>,
    file: Seq<char>,
    modified_ms: Option<i64>,
    now_ms: i64,
) -> Option<quota::QuotaSnapshotView> {
    let five_hour = quota::named(latest_window(documents, WindowClass::FiveHour), "five-hour"@);
    let weekly = quota::named(latest_window(documents, WindowClass::Weekly), "weekly"@);
    let long = quota::named(latest_window(documents, WindowClass::Long), "long-window"@);
    if five_hour is None && weekly is None && long is None {
        None
    } else {
        Some(
            quota::QuotaSnapshotView {
                five_hour,
                long_window: either(weekly, long),
                source: "session"@,
                observed_at_ms: Some(
                    match modified_ms {
                        Some(modified_ms) => modified_ms,
                        None => now_ms,
                    },
                ),
                received_at_ms: Some(now_ms),
                source_file: Some(file),
            },
        )
    }
}

/// The snapshot that a session record holds.
pub open spec fn file_snapshot(
    lines: Seq<Seq<char>>,
    file: Seq<char>,
    modified_ms: Option<i64>,
    now_ms: i64,
) -> Option<quota::QuotaSnapshotView> {
    documents_snapshot(parsed_lines(lines), file, modified_ms, now_ms)
}

proof fn lemma_last_of_both(
    a: Seq<quota::QuotaWindowView>,
    b: Seq<quota::QuotaWindowView>,
    class: WindowClass,
)
    ensures
        quota::last_of(a + b, class) == either(quota::last_of(b, class), quota::last_of(a, class)),
    decreases b.len(),
{
    if b.len() > 0 {
        assert((a + b).drop_last() =~= a + b.drop_last());
        lemma_last_of_both(a, b.drop_last(), class);
    } else {
        assert(a + b =~= a);
    }
}

proof fn lemma_first_of_both(
    a: Seq<quota::QuotaWindowView>,
    b: Seq<quota::QuotaWindowView>,
    class: WindowClass,
)
    ensures
        quota::first_of(a + b, class) == either(
            quota::first_of(a, class),
            quota::first_of(b, class),
        ),
    decreases a.len(),
{
    if a.len() > 0 {
        assert((a + b).drop_first() =~= a.drop_first() + b);
        lemma_first_of_both(a.drop_first(), b, class);
    } else {
        assert(a + b =~= b);
    }
}

proof fn lemma_last_of_class(windows: Seq<quota::QuotaWindowView>, class: WindowClass)
    ensures
        quota::last_of(windows, class) matches Some(window) ==> quota::class_of(window) == class,
    decreases windows.len(),
{
    if windows.len() > 0 {
        lemma_last_of_class(windows.drop_last(), class);
    }
}

proof fn lemma_first_of_class(windows: Seq<quota::QuotaWindowView>, class: WindowClass)
    ensures
        quota::first_of(windows, class) matches Some(window) ==> quota::class_of(window) == class,
    decreases windows.len(),
{
    if windows.len() > 0 {
        lemma_first_of_class(windows.drop_first(), class);
    }
}

proof fn lemma_latest_window_class(documents: Seq<Option<Json>>, class: WindowClass)
    ensures
        latest_window(documents, class) matches Some(window) ==> quota::class_of(window) == class,
    decreases documents.len(),
{
    if documents.len() > 0 {
        lemma_last_of_class(document_windows(documents.last()), class);
        lemma_first_of_class(document_windows(documents.last()), class);
        lemma_latest_window_class(documents.drop_last(), class);
    }
}

/// A list of at most one window holds a window of a class exactly if it is of that class.
proof fn lemma_listed(window: Option<quota::QuotaWindowView>, class: WindowClass)
    ensures
        quota::last_of(listed(window), class) == (if window is Some && quota::class_of(window->0)
            == class {
            window
        } else {
            None
        }),
        quota::first_of(listed(window), class) == quota::last_of(listed(window), class),
{
    reveal_with_fuel(quota::last_of, 2);
    reveal_with_fuel(quota::first_of, 2);
}

/// Classifying the windows that count gives them back.
proof fn lemma_windows_that_count(documents: Seq<Option<Json>>)
    ensures
        ({
            let windows = windows_that_count(documents);
            &&& quota::last_of(windows, WindowClass::FiveHour) == latest_window(
                documents,
                WindowClass::FiveHour,
            )
            &&& quota::last_of(windows, WindowClass::Weekly) == latest_window(
                documents,
                WindowClass::Weekly,
            )
            &&& quota::first_of(windows, WindowClass::Long) == latest_window(
                documents,
                WindowClass::Long,
            )
        }),
{
    let five_hour = latest_window(documents, WindowClass::FiveHour);
    let weekly = latest_window(documents, WindowClass::Weekly);
    let long = latest_window(documents, WindowClass::Long);
    lemma_latest_window_class(documents, WindowClass::FiveHour);
    lemma_latest_window_class(documents, WindowClass::Weekly);
    lemma_latest_window_class(documents, WindowClass::Long);
    let both = listed(five_hour) + listed(weekly);
    lemma_last_of_both(listed(five_hour), listed(weekly), WindowClass::FiveHour);
    lemma_last_of_both(both, listed(long), WindowClass::FiveHour);
    lemma_last_of_both(listed(five_hour), listed(weekly), WindowClass::Weekly);
    lemma_last_of_both(both, listed(long), WindowClass::Weekly);
    lemma_first_of_both(listed(five_hour), listed(weekly), WindowClass::Long);
    lemma_first_of_both(both, listed(long), WindowClass::Long);
    lemma_listed(five_hour, WindowClass::FiveHour);
    lemma_listed(five_hour, WindowClass::Weekly);
    lemma_listed(five_hour, WindowClass::Long);
    lemma_listed(weekly, WindowClass::FiveHour);
    lemma_listed(weekly, WindowClass::Weekly);
    lemma_listed(weekly, WindowClass::Long);
    lemma_listed(long, WindowClass::FiveHour);
    lemma_listed(long, WindowClass::Weekly);
    lemma_listed(long, WindowClass::Long);
}

/// Builds the snapshot of the documents of a session record.
pub fn record_snapshot(
    documents: &Vec<Option<Json>>,
    file: &str,
    modified_ms: Option<i64>,
    now_ms: i64,
) -> (snapshot: Option<QuotaSnapshot>)
    ensures
        quota::snapshot_view(snapshot) == documents_snapshot(
            documents@,
            file@,
            modified_ms,
            now_ms,
        ),
{
    proof {
        lemma_windows_that_count(documents@);
    }
    match classify_windows(latest_windows(documents), "session", now_ms) {
        Some(classified) => {
            let mut snapshot: QuotaSnapshot = classified;
            snapshot.observed_at_ms = match modified_ms {
                Some(modified_ms) => Some(modified_ms),
                None => Some(now_ms),
            };
            snapshot.source_file = Some(file.to_owned());
            Some(snapshot)
        },
        None => None,
    }
}

/// Builds the snapshot of a session record.
pub fn session_snapshot(text: &str, file: &str, modified_ms: Option<i64>, now_ms: i64) -> (snapshot:
    Option<QuotaSnapshot>)
    ensures
        quota::snapshot_view(snapshot) == file_snapshot(
            text::lines(text@),
            file@,
            modified_ms,
            now_ms,
        ),
{
    record_snapshot(&parse_lines(text), file, modified_ms, now_ms)
}

/// The lines that were read from a file: none where it could not be read.
pub open spec fn read_lines(read: Option<Seq<char>>) -> Seq<Seq<char>> {
    match read {
        Some(text) => text::lines(text),
        None => Seq::empty(),
    }
}

/// A search through session files for one that holds the quota.
pub struct SessionScan {
    order: Vec<usize>,
    tried: usize,
}

impl SessionScan {
    #[verifier::type_invariant]
    spec fn wf(self) -> bool {
        self.tried <= self.order@.len()
    }

    /// The positions of the files that are still to be looked at, in order.
    pub closed spec fn remaining(self) -> Seq<usize> {
        self.order@.skip(self.tried as int)
    }

    /// The position of the file to read next.
    pub fn next_file(&self) -> (position: Option<usize>)
        ensures
            match position {
                Some(position) => self.remaining().len() > 0 && position == self.remaining()[0],
                None => self.remaining().len() == 0,
            },
    {
        proof {
            use_type_invariant(self);
        }
        if self.tried < self.order.len() {
            Some(self.order[self.tried])
        } else {
            None
        }
    }

    /// Takes what was read of the next file, if it could be read. The search ends with the first
    /// snapshot.
    pub fn offer(
        &mut self,
        read: Option<String>,
        file: &str,
        modified_ms: Option<i64>,
        now_ms: i64,
    ) -> (snapshot: Option<QuotaSnapshot>)
        requires
            old(self).remaining().len() > 0,
        ensures
            final(self).remaining() == old(self).remaining().drop_first(),
            quota::snapshot_view(snapshot) == file_snapshot(
                read_lines(quota::text_view(read)),
                file@,
                modified_ms,
                now_ms,
            ),
    {
        proof {
            use_type_invariant(&*self);
            assert(self.remaining().drop_first() =~= self.order@.skip(self.tried + 1));
            assert(self.tried < self.order.len());
        }
        self.tried = self.tried + 1;
        match read {
            Some(text) => session_snapshot(text.as_str(), file, modified_ms, now_ms),
            None => None,
        }
    }
}

/// The files of an order that are looked at.
pub open spec fn looked_at(order: Seq<usize>) -> Seq<usize> {
    if order.len() > MAX_FILES {
        order.take(MAX_FILES as int)
    } else {
        order
    }
}

/// Starts a search through the newest session files, given their times of modification.
pub fn scan_sessions(modified: &Vec<Option<i128>>) -> (scan: SessionScan)
    ensures
        exists|order: Seq<usize>| #[trigger]
            newest_order(order, modified@) && scan.remaining() == looked_at(order),
{
    let mut order: Vec<usize> = newest_first(modified);
    let ghost full = order@;
    if order.len() > MAX_FILES {
        order.truncate(MAX_FILES);
    }
    let scan: SessionScan = SessionScan { order, tried: 0 };
    proof {
        assert(newest_order(full, modified@));
        assert(scan.remaining() =~= looked_at(full));
    }
    scan
}

/// The snapshot with which a search ends, given the snapshot that each file holds, if any.
pub open spec fn scan_result(
    remaining: Seq<usize>,
    held: spec_fn(usize) -> Option<quota::QuotaSnapshotView>,
) -> Option<quota::QuotaSnapshotView>
    decreases remaining.len(),
{
    if remaining.len() == 0 {
        None
    } else if held(remaining[0]) is Some {
        held(remaining[0])
    } else {
        scan_result(remaining.drop_first(), held)
    }
}

/// A search ends with the snapshot of the newest file that holds one: every file that comes
/// before it holds none; it ends with nothing if no file that is looked at holds one.
pub proof fn law_newest_file_with_quota_wins(
    order: Seq<usize>,
    modified: Seq<Option<i128>>,
    held: spec_fn(usize) -> Option<quota::QuotaSnapshotView>,
)
    requires
        newest_order(order, modified),
    ensures
        match scan_result(looked_at(order), held) {
            Some(snapshot) => exists|k: usize|
                looked_at(order).contains(k) && #[trigger] held(k) == Some(snapshot) && forall|
                    j: usize,
                |
                    j < modified.len() && #[trigger] comes_first(modified, j, k) ==> held(j) is None,
            None => forall|i: int|
                0 <= i < looked_at(order).len() ==> held(#[trigger] looked_at(order)[i]) is None,
        },
{
    let files = looked_at(order);
    lemma_scan_result(files, held);
    if let Some(snapshot) = scan_result(files, held) {
        let i = choose|i: int|
            0 <= i < files.len() && #[trigger] held(files[i]) == Some(snapshot) && forall|j: int|
                0 <= j < i ==> held(#[trigger] files[j]) is None;
        let k = files[i];
        assert(files.contains(k));
        assert forall|j: usize|
            j < modified.len() && #[trigger] comes_first(modified, j, k) implies held(
            j,
        ) is None by {
            assert(order.contains(j));
            let at = choose|at: int| 0 <= at < order.len() && order[at] == j;
            if at > i {
                assert(comes_first(modified, order[i], order[at]));
            }
            assert(at < i);
            assert(files[at] == j);
        }
    }
}

proof fn lemma_scan_result(
    remaining: Seq<usize>,
    held: spec_fn(usize) -> Option<quota::QuotaSnapshotView>,
)
    ensures
        match scan_result(remaining, held) {
            Some(snapshot) => exists|i: int|
                0 <= i < remaining.len() && #[trigger] held(remaining[i]) == Some(snapshot)
                    && forall|j: int| 0 <= j < i ==> held(#[trigger] remaining[j]) is None,
            None => forall|i: int|
                0 <= i < remaining.len() ==> held(#[trigger] remaining[i]) is None,
        },
    decreases remaining.len(),
{
    if remaining.len() > 0 {
        let rest = remaining.drop_first();
        lemma_scan_result(rest, held);
        if held(remaining[0]) is None {
            match scan_result(rest, held) {
                Some(snapshot) => {
                    let i = choose|i: int|
                        0 <= i < rest.len() && #[trigger] held(rest[i]) == Some(snapshot)
                            && forall|j: int| 0 <= j < i ==> held(#[trigger] rest[j]) is None;
                    assert(held(remaining[i + 1]) == Some(snapshot));
                    assert forall|j: int| 0 <= j < i + 1 implies held(
                        #[trigger] remaining[j],
                    ) is None by {
                        if j > 0 {
                            assert(held(rest[j - 1]) is None);
                        }
                    }
                },
                None => {
                    assert forall|i: int| 0 <= i < remaining.len() implies held(
                        #[trigger] remaining[i],
                    ) is None by {
                        if i > 0 {
                            assert(held(rest[i - 1]) is None);
                        }
                    }
                },
            }
        } else {
            assert(held(remaining[0]) == scan_result(remaining, held));
        }
    }
}

/// A session record has a name that starts with `rollout-` and ends with `.jsonl`.
pub proof fn law_names_of_session_records(name: Seq<char>)
    ensures
        rollout_name(name) <==> exists|middle: Seq<char>|
            name == #[trigger] ("rollout-"@ + middle + ".jsonl"@),
{
    reveal_strlit("rollout-");
    reveal_strlit(".jsonl");
    if rollout_name(name) {
        let n = name.len() as int;
        assert(forall|i: int| 0 <= i < 8 ==> name[i] == "rollout-"@[i]);
        assert forall|i: int| 0 <= i < 6 implies name[n - 6 + i] == ".jsonl"@[i] by {
            assert(name.subrange(n - 6, n)[i] == name[n - 6 + i]);
        }
        if n < 14 {
            assert(name[n - 6 + 0] == ".jsonl"@[0]);
            assert(name[n - 6] == "rollout-"@[n - 6]);
        }
        let middle = name.subrange(8, n - 6);
        assert(name =~= "rollout-"@ + middle + ".jsonl"@);
    }
    if exists|middle: Seq<char>| name == #[trigger] ("rollout-"@ + middle + ".jsonl"@) {
        let middle = choose|middle: Seq<char>| name == #[trigger] ("rollout-"@ + middle + ".jsonl"@);
        let n = name.len() as int;
        assert(name.subrange(n - 6, n) =~= ".jsonl"@);
        assert(name.subrange(0, 8) =~= "rollout-"@);
    }
}

/// In the order of files newer ones come first, those of unknown age last, and of files of the same
/// age the later one in the list; every file stands in it once.
pub proof fn law_newest_files_come_first(order: Seq<usize>, modified: Seq<Option<i128>>)
    requires
        newest_order(order, modified),
    ensures
        order.len() == modified.len(),
        forall|k: usize| k < modified.len() ==> #[trigger] order.contains(k),
        forall|i: int, j: int|
            0 <= i < j < order.len() ==> match (
                modified[#[trigger] order[i] as int],
                modified[#[trigger] order[j] as int],
            ) {
                (Some(a), Some(b)) => a > b || (a == b && order[i] > order[j]),
                (Some(_), None) => true,
                (None, Some(_)) => false,
                (None, None) => order[i] > order[j],
            },
{
    assert forall|i: int, j: int| 0 <= i < j < order.len() implies match (
        modified[#[trigger] order[i] as int],
        modified[#[trigger] order[j] as int],
    ) {
        (Some(a), Some(b)) => a > b || (a == b && order[i] > order[j]),
        (Some(_), None) => true,
        (None, Some(_)) => false,
        (None, None) => order[i] > order[j],
    } by {
        assert(comes_first(modified, order[i], order[j]));
    }
}

/// The first twenty files of the order are looked at.
pub proof fn law_twenty_files_are_looked_at(order: Seq<usize>)
    ensures
        looked_at(order).len() == if order.len() < 20 {
            order.len()
        } else {
            20
        },
        forall|i: int| 0 <= i < looked_at(order).len() ==> #[trigger] looked_at(order)[i] == order[i],
{
}

/// Every line is read for itself, in its place.
pub proof fn law_every_line_is_read(lines: Seq<Seq<char>>)
    ensures
        parsed_lines(lines).len() == lines.len(),
        forall|i: int|
            0 <= i < lines.len() ==> #[trigger] parsed_lines(lines)[i] == json::parsed_json(lines[i]),
{
}

/// A file is the lines that were read from it; one that could not be read has none.
pub proof fn law_a_file_is_its_lines(read: Option<Seq<char>>)
    ensures
        read matches Some(text) ==> read_lines(read) == text::lines(text),
        read is None ==> read_lines(read).len() == 0,
{
}

/// A document names a window of a class exactly if one of the windows in it is of that class,
/// whatever else is in it. It is the last of them, of long windows the first.
pub proof fn law_a_document_names_its_windows(document: Json, class: WindowClass)
    ensures
        document_window(None, class) is None,
        document_window(Some(document), class) is Some <==> exists|i: int|
            0 <= i < quota::windows_in(document).len() && quota::class_of(
                #[trigger] quota::windows_in(document)[i],
            ) == class,
        document_window(Some(document), class) matches Some(window) ==> exists|i: int|
            0 <= i < quota::windows_in(document).len() && #[trigger] quota::windows_in(document)[i]
                == window && quota::class_of(window) == class && forall|j: int|
                (if class == WindowClass::Long {
                    0 <= j < i
                } else {
                    i < j < quota::windows_in(document).len()
                }) ==> quota::class_of(#[trigger] quota::windows_in(document)[j]) != class,
{
    quota::law_the_last_of_a_class(quota::windows_in(document), class);
    quota::law_the_first_of_a_class(quota::windows_in(document), class);
    quota::law_the_last_of_a_class(Seq::empty(), class);
    quota::law_the_first_of_a_class(Seq::empty(), class);
}

/// Among documents the latest one that names a window of a class decides; there is a window
/// exactly if any document names one.
pub proof fn law_the_latest_document_decides(documents: Seq<Option<Json>>, class: WindowClass)
    ensures
        latest_window(documents, class) is Some <==> exists|k: int|
            0 <= k < documents.len() && document_window(#[trigger] documents[k], class) is Some,
        latest_window(documents, class) matches Some(window) ==> exists|k: int|
            0 <= k < documents.len() && document_window(#[trigger] documents[k], class) == Some(
                window,
            ) && forall|j: int|
                k < j < documents.len() ==> document_window(#[trigger] documents[j], class) is None,
{
    let windows = class_windows(documents, class);
    lemma_latest_is_last_given(documents, class);
    lemma_last_given(windows);
    assert forall|k: int| 0 <= k < documents.len() implies #[trigger] windows[k] == document_window(
        documents[k],
        class,
    ) by {
        lemma_class_window(documents, class, k);
    }
    if let Some(window) = latest_window(documents, class) {
        let k = choose|k: int|
            0 <= k < windows.len() && #[trigger] windows[k] == Some(window) && forall|j: int|
                k < j < windows.len() ==> #[trigger] windows[j] is None;
        assert(document_window(documents[k], class) == Some(window));
        assert forall|j: int| k < j < documents.len() implies document_window(
            #[trigger] documents[j],
            class,
        ) is None by {
            assert(windows[j] is None);
        }
    }
    if exists|k: int|
        0 <= k < documents.len() && document_window(#[trigger] documents[k], class) is Some {
        let k = choose|k: int|
            0 <= k < documents.len() && document_window(#[trigger] documents[k], class) is Some;
        assert(windows[k] is Some);
    }
}

/// The window of a class that each document names, if any.
#[verifier::opaque]
spec fn class_windows(documents: Seq<Option<Json>>, class: WindowClass) -> Seq<
    Option<quota::QuotaWindowView>,
> {
    documents.map_values(|document: Option<Json>| document_window(document, class))
}

/// The last window of a list that has gaps.
spec fn last_given(windows: Seq<Option<quota::QuotaWindowView>>) -> Option<quota::QuotaWindowView>
    decreases windows.len(),
{
    if windows.len() == 0 {
        None
    } else if windows.last() is Some {
        windows.last()
    } else {
        last_given(windows.drop_last())
    }
}

proof fn lemma_class_window(documents: Seq<Option<Json>>, class: WindowClass, k: int)
    requires
        0 <= k < documents.len(),
    ensures
        class_windows(documents, class)[k] == document_window(documents[k], class),
{
    reveal(class_windows);
}

proof fn lemma_latest_is_last_given(documents: Seq<Option<Json>>, class: WindowClass)
    ensures
        class_windows(documents, class).len() == documents.len(),
        latest_window(documents, class) == last_given(class_windows(documents, class)),
    decreases documents.len(),
{
    let windows = class_windows(documents, class);
    assert(windows.len() == documents.len()) by {
        reveal(class_windows);
    }
    if documents.len() > 0 {
        lemma_latest_is_last_given(documents.drop_last(), class);
        lemma_class_window(documents, class, documents.len() - 1);
        assert(class_windows(documents.drop_last(), class) =~= windows.drop_last()) by {
            reveal(class_windows);
        }
    }
}

proof fn lemma_last_given(windows: Seq<Option<quota::QuotaWindowView>>)
    ensures
        last_given(windows) is Some <==> exists|k: int|
            0 <= k < windows.len() && #[trigger] windows[k] is Some,
        last_given(windows) matches Some(window) ==> exists|k: int|
            0 <= k < windows.len() && #[trigger] windows[k] == Some(window) && forall|j: int|
                k < j < windows.len() ==> #[trigger] windows[j] is None,
    decreases windows.len(),
{
    if windows.len() > 0 {
        let rest = windows.drop_last();
        let last = windows.len() - 1;
        lemma_last_given(rest);
        if windows[last] is None {
            if let Some(window) = last_given(rest) {
                let k = choose|k: int|
                    0 <= k < rest.len() && #[trigger] rest[k] == Some(window) && forall|j: int|
                        k < j < rest.len() ==> #[trigger] rest[j] is None;
                assert(windows[k] == Some(window));
                assert forall|j: int| k < j < windows.len() implies #[trigger] windows[j] is None by {
                    if j < last {
                        assert(rest[j] is None);
                    }
                }
            }
            if exists|k: int| 0 <= k < windows.len() && #[trigger] windows[k] is Some {
                let k = choose|k: int| 0 <= k < windows.len() && #[trigger] windows[k] is Some;
                assert(rest[k] is Some);
            }
        } else {
            assert(windows[last] == last_given(windows));
        }
    }
}

/// A document has a window that lasts so many minutes.
pub open spec fn has_lasting(document: Option<Json>, low: int, high: int) -> bool {
    document matches Some(value) && quota::any_lasts(quota::windows_in(value), low, high)
}

/// Some document has a window that lasts so many minutes.
pub open spec fn any_has_lasting(documents: Seq<Option<Json>>, low: int, high: int) -> bool {
    exists|k: int| 0 <= k < documents.len() && has_lasting(#[trigger] documents[k], low, high)
}

/// A window is the last one that lasts so many minutes in the latest document that has one.
pub open spec fn latest_lasting(
    documents: Seq<Option<Json>>,
    low: int,
    high: int,
    window: quota::QuotaWindowView,
) -> bool {
    exists|k: int|
        0 <= k < documents.len() && has_lasting(#[trigger] documents[k], low, high)
            && quota::last_lasting(quota::windows_in(documents[k]->0), low, high, window)
            && forall|j: int|
            k < j < documents.len() ==> !has_lasting(#[trigger] documents[j], low, high)
}

proof fn lemma_class_and_minutes(
    documents: Seq<Option<Json>>,
    class: WindowClass,
    low: int,
    high: int,
)
    requires
        class != WindowClass::Long,
        forall|window: quota::QuotaWindowView| #[trigger]
            quota::class_of(window) == class <==> quota::lasts(window, low, high),
    ensures
        latest_window(documents, class) is Some <==> any_has_lasting(documents, low, high),
        latest_window(documents, class) matches Some(window) ==> latest_lasting(
            documents,
            low,
            high,
            window,
        ),
{
    law_the_latest_document_decides(documents, class);
    assert forall|k: int| 0 <= k < documents.len() implies (document_window(
        #[trigger] documents[k],
        class,
    ) is Some <==> has_lasting(documents[k], low, high)) by {
        lemma_document_minutes(documents[k], class, low, high);
    }
    if let Some(window) = latest_window(documents, class) {
        let k = choose|k: int|
            0 <= k < documents.len() && document_window(#[trigger] documents[k], class) == Some(
                window,
            ) && forall|j: int|
                k < j < documents.len() ==> document_window(#[trigger] documents[j], class) is None;
        lemma_document_minutes(documents[k], class, low, high);
        assert(has_lasting(documents[k], low, high));
        assert forall|j: int| k < j < documents.len() implies !has_lasting(
            #[trigger] documents[j],
            low,
            high,
        ) by {
            assert(document_window(documents[j], class) is None);
        }
    }
}

proof fn lemma_document_minutes(document: Option<Json>, class: WindowClass, low: int, high: int)
    requires
        class != WindowClass::Long,
        forall|window: quota::QuotaWindowView| #[trigger]
            quota::class_of(window) == class <==> quota::lasts(window, low, high),
    ensures
        document_window(document, class) is Some <==> has_lasting(document, low, high),
        document_window(document, class) matches Some(window) ==> quota::last_lasting(
            quota::windows_in(document->0),
            low,
            high,
            window,
        ),
{
    match document {
        None => law_a_document_names_its_windows(Json::Null, class),
        Some(value) => {
            let windows = quota::windows_in(value);
            law_a_document_names_its_windows(value, class);
            if let Some(window) = document_window(document, class) {
                let i = choose|i: int|
                    0 <= i < windows.len() && #[trigger] windows[i] == window && quota::class_of(
                        window,
                    ) == class && forall|j: int|
                        (if class == WindowClass::Long {
                            0 <= j < i
                        } else {
                            i < j < windows.len()
                        }) ==> quota::class_of(#[trigger] windows[j]) != class;
                assert(quota::lasts(windows[i], low, high));
                assert forall|j: int| i < j < windows.len() implies !quota::lasts(
                    #[trigger] windows[j],
                    low,
                    high,
                ) by {
                    assert(quota::class_of(windows[j]) != class);
                }
            }
            if has_lasting(document, low, high) {
                let i = choose|i: int|
                    0 <= i < windows.len() && quota::lasts(#[trigger] windows[i], low, high);
                assert(quota::class_of(windows[i]) == class);
            }
        },
    }
}

/// The snapshot of a session record shows the five-hour and the weekly window of the latest lines
/// that have one, each whatever the other lines and windows are. It is dated by the file, and says
/// which file and when it was read.
pub proof fn law_a_record_shows_its_latest_windows(
    documents: Seq<Option<Json>>,
    file: Seq<char>,
    modified_ms: Option<i64>,
    now_ms: i64,
)
    ensures
        documents_snapshot(documents, file, modified_ms, now_ms) is Some <==> any_has_lasting(
            documents,
            295,
            u64::MAX as int,
        ),
        documents_snapshot(documents, file, modified_ms, now_ms) matches Some(snapshot) ==> {
            &&& snapshot.source == "session"@
            &&& snapshot.source_file == Some(file)
            &&& snapshot.received_at_ms == Some(now_ms)
            &&& modified_ms is Some ==> snapshot.observed_at_ms == modified_ms
            &&& modified_ms is None ==> snapshot.observed_at_ms == Some(now_ms)
            &&& snapshot.five_hour is Some <==> any_has_lasting(documents, 295, 305)
            &&& snapshot.five_hour is Some ==> exists|window: quota::QuotaWindowView|
                latest_lasting(documents, 295, 305, window) && #[trigger] quota::shown_as(
                    snapshot.five_hour,
                    window,
                    "five-hour"@,
                )
            &&& snapshot.long_window is Some <==> any_has_lasting(documents, 306, u64::MAX as int)
            &&& any_has_lasting(documents, 10070, 10090) ==> exists|window: quota::QuotaWindowView|
                latest_lasting(documents, 10070, 10090, window) && #[trigger] quota::shown_as(
                    snapshot.long_window,
                    window,
                    "weekly"@,
                )
            &&& snapshot.long_window is Some && !any_has_lasting(documents, 10070, 10090) ==> exists|
                k: int,
            |
                0 <= k < documents.len() && has_lasting(
                    #[trigger] documents[k],
                    306,
                    u64::MAX as int,
                ) && (forall|j: int|
                    k < j < documents.len() ==> !has_lasting(
                        #[trigger] documents[j],
                        306,
                        u64::MAX as int,
                    )) && exists|window: quota::QuotaWindowView|
                    quota::first_lasting(
                        quota::windows_in(documents[k]->0),
                        306,
                        u64::MAX as int,
                        window,
                    ) && #[trigger] quota::shown_as(snapshot.long_window, window, "long-window"@)
        },
{
    assert forall|window: quota::QuotaWindowView| true implies {
        &&& #[trigger] quota::class_of(window) == WindowClass::FiveHour <==> quota::lasts(
            window,
            295,
            305,
        )
        &&& quota::class_of(window) == WindowClass::Weekly <==> quota::lasts(window, 10070, 10090)
        &&& quota::class_of(window) == WindowClass::Long <==> quota::lasts(window, 306, 10069)
            || quota::lasts(window, 10091, u64::MAX as int)
    } by {
        quota::law_classes_go_by_duration(window);
    }
    lemma_class_and_minutes(documents, WindowClass::FiveHour, 295, 305);
    lemma_class_and_minutes(documents, WindowClass::Weekly, 10070, 10090);
    lemma_long_and_minutes(documents);
    let long = u64::MAX as int;
    let five_hour = latest_window(documents, WindowClass::FiveHour);
    let weekly = latest_window(documents, WindowClass::Weekly);
    let longer = latest_window(documents, WindowClass::Long);
    lemma_has_longer(documents);
    if let Some(snapshot) = documents_snapshot(documents, file, modified_ms, now_ms) {
        if five_hour is Some {
            assert(quota::shown_as(snapshot.five_hour, five_hour->0, "five-hour"@));
        }
        if weekly is Some {
            assert(quota::shown_as(snapshot.long_window, weekly->0, "weekly"@));
        } else if longer is Some {
            assert(quota::shown_as(snapshot.long_window, longer->0, "long-window"@));
        }
    }
}

/// A window of 295 minutes or more is a five-hour one or a longer one.
proof fn lemma_has_longer(documents: Seq<Option<Json>>)
    ensures
        any_has_lasting(documents, 295, u64::MAX as int) <==> any_has_lasting(documents, 295, 305)
            || any_has_lasting(documents, 306, u64::MAX as int),
        any_has_lasting(documents, 10070, 10090) ==> any_has_lasting(
            documents,
            306,
            u64::MAX as int,
        ),
{
    let long = u64::MAX as int;
    assert forall|k: int| 0 <= k < documents.len() implies {
        &&& has_lasting(#[trigger] documents[k], 295, long) <==> has_lasting(documents[k], 295, 305)
            || has_lasting(documents[k], 306, long)
        &&& has_lasting(documents[k], 10070, 10090) ==> has_lasting(documents[k], 306, long)
    } by {
        if let Some(value) = documents[k] {
            let windows = quota::windows_in(value);
            if has_lasting(documents[k], 295, long) {
                let i = choose|i: int|
                    0 <= i < windows.len() && quota::lasts(#[trigger] windows[i], 295, long);
                assert(quota::lasts(windows[i], 295, 305) || quota::lasts(windows[i], 306, long));
            }
            if has_lasting(documents[k], 295, 305) {
                let i = choose|i: int|
                    0 <= i < windows.len() && quota::lasts(#[trigger] windows[i], 295, 305);
                assert(quota::lasts(windows[i], 295, long));
            }
            if has_lasting(documents[k], 306, long) {
                let i = choose|i: int|
                    0 <= i < windows.len() && quota::lasts(#[trigger] windows[i], 306, long);
                assert(quota::lasts(windows[i], 295, long));
            }
            if has_lasting(documents[k], 10070, 10090) {
                let i = choose|i: int|
                    0 <= i < windows.len() && quota::lasts(#[trigger] windows[i], 10070, 10090);
                assert(quota::lasts(windows[i], 306, long));
            }
        }
    }
}

/// Where no document has a weekly window, the long windows are those of 306 minutes and more.
proof fn lemma_long_and_minutes(documents: Seq<Option<Json>>)
    requires
        forall|window: quota::QuotaWindowView|
            #[trigger] quota::class_of(window) == WindowClass::Long <==> quota::lasts(
                window,
                306,
                10069,
            ) || quota::lasts(window, 10091, u64::MAX as int),
    ensures
        any_has_lasting(documents, 10070, 10090) || latest_window(documents, WindowClass::Long) is Some
            <==> any_has_lasting(documents, 306, u64::MAX as int),
        !any_has_lasting(documents, 10070, 10090) ==> (latest_window(
            documents,
            WindowClass::Long,
        ) matches Some(window) ==> exists|k: int|
            0 <= k < documents.len() && has_lasting(#[trigger] documents[k], 306, u64::MAX as int)
                && (forall|j: int|
                k < j < documents.len() ==> !has_lasting(
                    #[trigger] documents[j],
                    306,
                    u64::MAX as int,
                )) && quota::first_lasting(
                quota::windows_in(documents[k]->0),
                306,
                u64::MAX as int,
                window,
            )),
{
    let class = WindowClass::Long;
    let high = u64::MAX as int;
    law_the_latest_document_decides(documents, class);
    lemma_has_longer(documents);
    assert forall|k: int| 0 <= k < documents.len() implies {
        &&& document_window(#[trigger] documents[k], class) is Some ==> has_lasting(
            documents[k],
            306,
            high,
        )
        &&& has_lasting(documents[k], 306, high) ==> has_lasting(documents[k], 10070, 10090)
            || document_window(documents[k], class) is Some
    } by {
        lemma_long_document(documents[k]);
    }
    if let Some(window) = latest_window(documents, class) {
        let k = choose|k: int|
            0 <= k < documents.len() && document_window(#[trigger] documents[k], class) == Some(
                window,
            ) && forall|j: int|
                k < j < documents.len() ==> document_window(#[trigger] documents[j], class) is None;
        assert(has_lasting(documents[k], 306, high));
        if !any_has_lasting(documents, 10070, 10090) {
            assert(!has_lasting(documents[k], 10070, 10090));
            lemma_long_document(documents[k]);
            assert forall|j: int| k < j < documents.len() implies !has_lasting(
                #[trigger] documents[j],
                306,
                high,
            ) by {
                assert(document_window(documents[j], class) is None);
                assert(!has_lasting(documents[j], 10070, 10090));
            }
        }
    }
}

proof fn lemma_long_document(document: Option<Json>)
    requires
        forall|window: quota::QuotaWindowView|
            #[trigger] quota::class_of(window) == WindowClass::Long <==> quota::lasts(
                window,
                306,
                10069,
            ) || quota::lasts(window, 10091, u64::MAX as int),
    ensures
        document_window(document, WindowClass::Long) is Some ==> has_lasting(
            document,
            306,
            u64::MAX as int,
        ),
        has_lasting(document, 306, u64::MAX as int) ==> has_lasting(document, 10070, 10090)
            || document_window(document, WindowClass::Long) is Some,
        !has_lasting(document, 10070, 10090) ==> (document_window(
            document,
            WindowClass::Long,
        ) matches Some(window) ==> quota::first_lasting(
            quota::windows_in(document->0),
            306,
            u64::MAX as int,
            window,
        )),
{
    let class = WindowClass::Long;
    let high = u64::MAX as int;
    match document {
        None => law_a_document_names_its_windows(Json::Null, class),
        Some(value) => {
            let windows = quota::windows_in(value);
            law_a_document_names_its_windows(value, class);
            if let Some(window) = document_window(document, class) {
                let i = choose|i: int|
                    0 <= i < windows.len() && #[trigger] windows[i] == window && quota::class_of(
                        window,
                    ) == class && forall|j: int|
                        (if class == WindowClass::Long {
                            0 <= j < i
                        } else {
                            i < j < windows.len()
                        }) ==> quota::class_of(#[trigger] windows[j]) != class;
                assert(quota::lasts(windows[i], 306, high));
                if !has_lasting(document, 10070, 10090) {
                    assert forall|j: int| 0 <= j < i implies !quota::lasts(
                        #[trigger] windows[j],
                        306,
                        high,
                    ) by {
                        assert(quota::class_of(windows[j]) != class);
                        assert(!quota::lasts(windows[j], 10070, 10090));
                    }
                }
            }
            if has_lasting(document, 306, high) {
                let i = choose|i: int|
                    0 <= i < windows.len() && quota::lasts(#[trigger] windows[i], 306, high);
                assert(quota::lasts(windows[i], 10070, 10090) || quota::class_of(windows[i])
                    == class);
            }
        },
    }
}

/// A file shows what the documents of its lines show.
pub proof fn law_a_file_shows_its_lines(
    lines: Seq<Seq<char>>,
    documents: Seq<Option<Json>>,
    file: Seq<char>,
    modified_ms: Option<i64>,
    now_ms: i64,
)
    requires
        documents.len() == lines.len(),
        forall|i: int| 0 <= i < lines.len() ==> documents[i] == json::parsed_json(#[trigger] lines[i]),
    ensures
        file_snapshot(lines, file, modified_ms, now_ms) == documents_snapshot(
            documents,
            file,
            modified_ms,
            now_ms,
        ),
        forall|class: WindowClass| #[trigger] file_window(lines, class) == latest_window(documents, class),
{
    assert forall|i: int| 0 <= i < lines.len() implies parsed_lines(lines)[i] == documents[i] by {
        assert(documents[i] == json::parsed_json(lines[i]));
    }
    assert(parsed_lines(lines) =~= documents);
}

/// The end of a file that is read is as long as it may be, and no longer.
pub proof fn law_as_much_of_a_file_is_read_as_may_be(len: int, max_bytes: int)
    requires
        len >= 0,
        max_bytes >= 0,
    ensures
        0 <= end_start(len, max_bytes) <= len,
        len - end_start(len, max_bytes) <= max_bytes,
        end_start(len, max_bytes) == 0 || len - end_start(len, max_bytes) == max_bytes,
        MAX_TAIL_BYTES == 2 * 1024 * 1024,
{
}

/// A file that is read from its start is used whole; of one that is read from somewhere else the
/// first, incomplete line is left out, and everything where there is no other.
pub proof fn law_incomplete_lines_are_left_out(line: Seq<char>, rest: Seq<char>, start: int)
    requires
        !line.contains('\n'),
    ensures
        used_end(line, 0) == line,
        used_end(line.push('\n') + rest, 0) == line.push('\n') + rest,
        start > 0 ==> used_end(line.push('\n') + rest, start) == rest,
        start > 0 ==> used_end(line, start) == Seq::<char>::empty(),
{
    text::law_a_line_ends_with_a_line_feed(line, rest);
    text::law_the_last_line_needs_no_line_feed(line);
}

/// The session records of a directory are those of its entries one after the other; a file is one
/// exactly if it is named like one.
pub proof fn law_records_of_a_directory(entry: Entry)
    ensures
        match entry {
            Entry::Directory(entries) => rollouts_of(entry) == entries@.map_values(
                |inner: Entry| rollouts_of(inner),
            ).flatten(),
            Entry::File { name: Some(name), number } => {
                &&& "rollout-"@.is_prefix_of(name@) && ".jsonl"@.is_suffix_of(name@) ==> rollouts_of(
                    entry,
                ) == seq![number]
                &&& !("rollout-"@.is_prefix_of(name@) && ".jsonl"@.is_suffix_of(name@))
                    ==> rollouts_of(entry).len() == 0
            },
            Entry::File { name: None, .. } => rollouts_of(entry).len() == 0,
        },
{
    if let Entry::Directory(entries) = entry {
        lemma_entries_flat(entries@, entries@.len());
        assert(entries@.take(entries@.len() as int) =~= entries@);
    }
}

proof fn lemma_entries_flat(entries: Seq<Entry>, count: nat)
    requires
        count <= entries.len(),
    ensures
        rollouts_in(entries, count) == entries.take(count as int).map_values(
            |inner: Entry| rollouts_of(inner),
        ).flatten(),
    decreases count,
{
    let f = |inner: Entry| rollouts_of(inner);
    let lists = entries.take(count as int).map_values(f);
    if count == 0 {
        assert(lists.len() == 0);
        assert(lists.flatten() =~= Seq::empty());
    } else {
        lemma_entries_flat(entries, (count - 1) as nat);
        let earlier = entries.take(count - 1).map_values(f);
        assert(lists =~= earlier.push(rollouts_of(entries[count - 1])));
        earlier.lemma_flatten_push(rollouts_of(entries[count - 1]));
    }
}

} // verus!
