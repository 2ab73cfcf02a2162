use codex_quota::binary64::Binary64;
use codex_quota::json::{Json, JsonNumber};
use codex_quota::quota::QuotaSnapshot;
use codex_quota::session::{
    collect_rollouts, is_rollout_name, latest_windows, newest_first, parse_lines, read_tail,
    record_snapshot, scan_sessions, session_snapshot, session_windows, tail_start, Entry,
    MAX_TAIL_BYTES,
};

fn file(name: &str, number: usize) -> Entry {
    Entry::File { name: Some(name.into()), number }
}

/// Looks through a tree of files, all modified at the time that their number gives, with the
/// contents that `read` gives for their numbers.
fn scan(tree: Vec<Entry>, read: fn(usize) -> Option<String>, now_ms: i64) -> Option<QuotaSnapshot> {
    let mut found = Vec::new();
    collect_rollouts(&tree, &mut found);
    let modified = found.iter().map(|number| Some(*number as i128)).collect();
    let mut search = scan_sessions(&modified);
    while let Some(position) = search.next_file() {
        let number = found[position];
        let name = format!("file {number}");
        if let Some(snapshot) = search.offer(read(number), &name, Some(number as i64), now_ms) {
            return Some(snapshot);
        }
    }
    None
}

const RECORD: &str =
    "not-json\n{\"rate_limits\":{\"primary\":{\"used_percent\":20,\"window_minutes\":300}}}\n";

#[test]
fn missing_directory_is_safe() {
    assert!(scan(vec![], |_| unreachable!(), 7).is_none());
}

#[test]
fn valid_rollout_is_found_recursively() {
    let tree = vec![Entry::Directory(vec![Entry::Directory(vec![file("rollout-test.jsonl", 1)])])];
    let result = scan(tree, |_| Some(RECORD.into()), 7).unwrap();
    assert_eq!(result.source, "session");
    assert_eq!(
        result.five_hour.unwrap().remaining_percent,
        Some(Binary64 { bits: 80.0f64.to_bits() })
    );
}

#[test]
fn unrelated_files_are_ignored() {
    let read: fn(usize) -> Option<String> =
        |_| Some("{\"used_percent\":20,\"window_minutes\":300}".into());
    assert!(scan(vec![file("notes.jsonl", 1)], read, 7).is_none());
}

#[test]
fn names_of_session_records() {
    assert!(is_rollout_name("rollout-2026-09-01.jsonl"));
    assert!(is_rollout_name("rollout-.jsonl"));
    assert!(!is_rollout_name("rollout-.json"));
    assert!(!is_rollout_name("Rollout-1.jsonl"));
    assert!(!is_rollout_name("rollout"));
    assert!(!is_rollout_name(""));
}

#[test]
fn records_are_collected_in_order() {
    let tree = vec![
        file("rollout-a.jsonl", 4),
        Entry::Directory(vec![file("rollout-b.jsonl", 2), file("c.txt", 3), Entry::Directory(vec![])]),
        Entry::File { name: None, number: 5 },
        file("rollout-d.jsonl", 1),
    ];
    let mut found = vec![9];
    collect_rollouts(&tree, &mut found);
    assert_eq!(found, vec![9, 4, 2, 1]);
}

#[test]
fn newest_files_come_first_and_later_ones_before_as_new_ones() {
    let modified = vec![Some(5), None, Some(7), Some(5), None, Some(-2)];
    assert_eq!(newest_first(&modified), vec![2, 3, 0, 5, 4, 1]);
    assert!(newest_first(&vec![]).is_empty());
}

#[test]
fn the_newest_file_with_quota_wins() {
    let tree = vec![file("rollout-a.jsonl", 1), file("rollout-b.jsonl", 2), file("rollout-c.jsonl", 3)];
    let read: fn(usize) -> Option<String> = |number| match number {
        3 => None,
        2 => Some(RECORD.into()),
        _ => unreachable!(),
    };
    let result = scan(tree, read, 7).unwrap();
    assert_eq!(result.source_file.as_deref(), Some("file 2"));
    assert_eq!(result.observed_at_ms, Some(2));
    assert_eq!(result.received_at_ms, Some(7));
}

#[test]
fn only_twenty_files_are_looked_at() {
    let many = (0..30).map(|number| file("rollout-x.jsonl", number)).collect();
    let read: fn(usize) -> Option<String> =
        |number| if number < 10 { unreachable!() } else { Some("{}".into()) };
    assert!(scan(many, read, 7).is_none());
    let twenty_one = (0..21).map(|number| file("rollout-x.jsonl", number)).collect();
    let last: fn(usize) -> Option<String> =
        |number| if number == 1 { Some(RECORD.into()) } else { Some(String::new()) };
    assert_eq!(scan(twenty_one, last, 7).unwrap().source_file.as_deref(), Some("file 1"));
}

#[test]
fn an_unknown_time_of_modification_is_now() {
    let snapshot = session_snapshot(RECORD, "f", None, 7).unwrap();
    assert_eq!(snapshot.observed_at_ms, Some(7));
    assert_eq!(snapshot.source_file.as_deref(), Some("f"));
    assert!(session_snapshot("{}", "f", None, 7).is_none());
}

#[test]
fn the_first_incomplete_line_of_a_tail_is_dropped() {
    assert_eq!(tail_start(10, MAX_TAIL_BYTES), 0);
    assert_eq!(tail_start(2_097_152, MAX_TAIL_BYTES), 0);
    assert_eq!(tail_start(2_097_153, MAX_TAIL_BYTES), 1);
    assert_eq!(read_tail("half\nwhole\nlast".into(), 0), "half\nwhole\nlast");
    assert_eq!(read_tail("half\nwhole\nlast".into(), 1), "whole\nlast");
    assert_eq!(read_tail("no end".into(), 1), "");
}

fn minutes(text: &str) -> Vec<Option<u64>> {
    session_windows(text).iter().map(|window| window.window_duration_mins).collect()
}

#[test]
fn windows_of_later_lines_come_first() {
    let text = "{\"used_percent\":1,\"window_minutes\":300}\r\n{\"used_percent\":2,\"window_minutes\":301}\n\n{\"used_percent\":3";
    assert_eq!(minutes(text), vec![Some(301)]);
    let snapshot = session_snapshot(text, "f", None, 7).unwrap();
    assert_eq!(snapshot.five_hour.unwrap().window_duration_mins, Some(301));
}

#[test]
fn the_value_written_last_is_shown() {
    let read: fn(usize) -> Option<String> = |_| {
        Some(
            "{\"used_percent\":20,\"window_minutes\":300}\n{\"used_percent\":60,\"window_minutes\":300}\n"
                .into(),
        )
    };
    let result = scan(vec![file("rollout-a.jsonl", 5)], read, 7).unwrap();
    assert_eq!(
        result.five_hour.unwrap().remaining_percent,
        Some(Binary64 { bits: 40.0f64.to_bits() })
    );
    assert_eq!(result.observed_at_ms, Some(5));
}

#[test]
fn every_class_has_its_latest_line() {
    let weekly = "{\"used_percent\":1,\"window_minutes\":10080}\n";
    let five = "{\"used_percent\":2,\"window_minutes\":299}\n";
    let long = "{\"used_percent\":3,\"window_minutes\":1440}\n";
    let longer = "{\"used_percent\":4,\"window_minutes\":2880}\n";
    let newer = "{\"used_percent\":5,\"window_minutes\":10081}\n";
    assert_eq!(minutes(&[long, longer].concat()), vec![Some(2880)]);
    assert_eq!(minutes(&[longer, long].concat()), vec![Some(1440)]);
    assert_eq!(
        minutes(&[weekly, five, newer, longer, long, "x\n"].concat()),
        vec![Some(299), Some(10081), Some(1440)]
    );
    let snapshot = session_snapshot(&[weekly, long].concat(), "f", None, 7).unwrap();
    assert_eq!(snapshot.long_window.unwrap().kind, "weekly");
    assert!(snapshot.five_hour.is_none());
}

#[test]
fn within_a_line_windows_are_classified_as_anywhere() {
    let line = "[{\"used_percent\":1,\"window_minutes\":299},{\"used_percent\":2,\"window_minutes\":301},{\"used_percent\":3,\"window_minutes\":1440},{\"used_percent\":4,\"window_minutes\":2880}]";
    assert_eq!(minutes(line), vec![Some(301), Some(1440)]);
}

/// A document that names a window of so many minutes.
fn document(minutes: u32) -> Option<Json> {
    let double = Some(Binary64 { bits: f64::from(minutes).to_bits() });
    let number = || Json::Number(JsonNumber { integer: None, double });
    Some(Json::Object(vec![
        ("used_percent".into(), number()),
        ("window_minutes".into(), number()),
    ]))
}

#[test]
fn the_latest_document_of_each_class_counts() {
    let documents = vec![document(10080), document(300), None, document(1440), document(304)];
    let found: Vec<Option<u64>> =
        latest_windows(&documents).iter().map(|window| window.window_duration_mins).collect();
    assert_eq!(found, vec![Some(304), Some(10080), Some(1440)]);
    let snapshot = record_snapshot(&documents, "f", Some(3), 7).unwrap();
    assert_eq!(snapshot.five_hour.unwrap().window_duration_mins, Some(304));
    assert_eq!(snapshot.long_window.unwrap().kind, "weekly");
    assert_eq!(snapshot.observed_at_ms, Some(3));
    assert!(record_snapshot(&vec![None, document(60)], "f", Some(3), 7).is_none());
}

#[test]
fn lines_are_read_each_for_itself() {
    assert_eq!(parse_lines("null\nnot-json\r\n[]"), vec![
        Some(Json::Null),
        None,
        Some(Json::Array(vec![]))
    ]);
    assert!(parse_lines("").is_empty());
}
