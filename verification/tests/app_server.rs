use codex_quota::app_server::{
    codex_candidates, is_rate_limits_notification, message_line, no_params, notify,
    official_install_candidates, response_matches_id, stop_step, AppServerClient, Attempt,
    Incoming, Reply, Request, StopStep,
};
use codex_quota::binary64::Binary64;
use codex_quota::json::{parse_json, render_json, Json};
use codex_quota::paths::{executable_in, official_root_in};
use std::path::PathBuf;

fn json(text: &str) -> Json {
    parse_json(text).unwrap()
}

fn client() -> AppServerClient {
    AppServerClient::new("codex".into(), 42)
}

fn paths(list: &[&str]) -> Vec<PathBuf> {
    list.iter().map(PathBuf::from).collect()
}

fn first() -> Request {
    Request { id: 1, method: "initialize".into(), timeout_ms: 5 }
}

fn failure(reply: Reply) -> String {
    match reply {
        Reply::Failed(reason) => reason,
        _ => panic!("no failure"),
    }
}

#[test]
fn response_id_must_match() {
    assert!(response_matches_id(&json(r#"{"id":7,"result":{}}"#), 7));
    assert!(!response_matches_id(&json(r#"{"id":8}"#), 7));
}

#[test]
fn notification_is_recognized() {
    assert!(is_rate_limits_notification(&json(
        r#"{"method":"account/rateLimits/updated","params":{}}"#
    )));
}

#[test]
fn unrelated_notification_is_ignored() {
    assert!(!is_rate_limits_notification(&json(r#"{"method":"account/updated"}"#)));
}

#[test]
fn official_install_directory_is_discovered_without_path() {
    let root = official_root_in(&PathBuf::from("/data"));
    let executable = PathBuf::from("/data")
        .join("OpenAI")
        .join("Codex")
        .join("bin")
        .join("build-id")
        .join("codex.exe");
    assert_eq!(executable_in(&root.join("build-id")), executable);
    assert_eq!(
        official_install_candidates(None, vec![(Some(17), executable.clone())]),
        vec![executable]
    );
}

#[test]
fn identifiers_of_another_shape_do_not_match() {
    assert!(!response_matches_id(&json(r#"{"id":"7"}"#), 7));
    assert!(!response_matches_id(&json(r#"{"id":7.5}"#), 7));
    assert!(!response_matches_id(&json(r#"{}"#), 7));
    assert!(!response_matches_id(&json("7"), 7));
}

#[test]
fn newer_versions_come_first() {
    let versioned = vec![
        (None, PathBuf::from("unknown")),
        (Some(5), PathBuf::from("old")),
        (Some(9), PathBuf::from("new")),
        (Some(5), PathBuf::from("as old")),
    ];
    assert_eq!(
        official_install_candidates(Some(PathBuf::from("direct")), versioned),
        paths(&["direct", "new", "as old", "old", "unknown"])
    );
}

#[test]
fn candidates_start_with_the_search_path_and_do_not_repeat() {
    assert_eq!(codex_candidates(vec![], None), paths(&["codex"]));
    assert_eq!(
        codex_candidates(paths(&["codex", "a", "a"]), Some(PathBuf::from("a"))),
        paths(&["codex", "a"])
    );
    assert_eq!(
        codex_candidates(paths(&["a", "codex"]), Some(PathBuf::from("s"))),
        paths(&["codex", "a", "codex", "s"])
    );
}

#[test]
fn candidates_are_compared_by_components() {
    let found = codex_candidates(paths(&["a/b", "a//b", "a/./b", "a/c"]), None);
    assert_eq!(found.len(), 3);
    assert_eq!(found[1].to_str(), Some("a/b"));
    assert_eq!(found[2].to_str(), Some("a/c"));
}

#[test]
fn requests_are_numbered_and_written_on_one_line() {
    let mut server = client();
    assert_eq!(server.pid(), 42);
    assert_eq!(server.executable(), "codex");
    let (request, message) = server.initialize();
    assert_eq!(request.id, 1);
    assert_eq!(request.method, "initialize");
    assert_eq!(request.timeout_ms, 5000);
    assert_eq!(
        message_line(&message),
        "{\"id\":1,\"method\":\"initialize\",\"params\":{\"clientInfo\":{\"name\":\"codex_quota\",\"title\":\"Codex Quota\",\"version\":\"0.6.1\"}}}\n"
    );
    let (next, read) = server.ask_rate_limits();
    assert_eq!(next.id, 2);
    assert_eq!(next.timeout_ms, 8000);
    assert_eq!(
        message_line(&read),
        "{\"id\":2,\"method\":\"account/rateLimits/read\",\"params\":{}}\n"
    );
    let (other, _) = server.request("x", no_params(), 7);
    assert_eq!((other.id, other.timeout_ms), (3, 7));
    assert_eq!(server.next_id, 4);
}

#[test]
fn notifications_carry_parameters_only_if_given() {
    assert_eq!(render_json(&AppServerClient::initialized()), r#"{"method":"initialized"}"#);
    assert_eq!(
        render_json(&notify("x", Some(json("[null,true,\"a\\nb\"]")))),
        r#"{"method":"x","params":[null,true,"a\nb"]}"#
    );
}

#[test]
fn an_answer_ends_the_wait() {
    let mut server = client();
    let answer = r#"{"id":1,"result":{}}"#;
    let reply = server.receive(&first(), Incoming::Message(json(answer)), 10);
    assert!(matches!(reply, Reply::Answered(message) if message == json(answer)));
    assert_eq!(server.last_notification_ms, None);
}

#[test]
fn other_messages_are_passed_over() {
    let mut server = client();
    let other = Incoming::Message(json(r#"{"id":9,"result":{}}"#));
    assert!(matches!(server.receive(&first(), other, 10), Reply::Waiting));
    assert_eq!(server.last_notification_ms, None);
    let update = Incoming::Message(json(r#"{"id":1,"method":"account/rateLimits/updated"}"#));
    assert!(matches!(server.receive(&first(), update, 11), Reply::Waiting));
    assert_eq!(server.last_notification_ms, Some(11));
}

#[test]
fn errors_are_reported() {
    let mut server = client();
    let told = Incoming::Message(json(r#"{"id":1,"error":{"message":"no access"}}"#));
    assert_eq!(failure(server.receive(&first(), told, 0)), "no access");
    let silent = Incoming::Message(json(r#"{"id":1,"error":{"code":5}}"#));
    assert_eq!(failure(server.receive(&first(), silent, 0)), "app-server request failed");
    let late = Incoming::Nothing("timed out waiting on channel".into());
    assert_eq!(
        failure(server.receive(&first(), late, 0)),
        "initialize failed while waiting for response: timed out waiting on channel"
    );
}

#[test]
fn rate_limits_are_read_from_an_answer() {
    let mut server = client();
    let response = json(
        r#"{"id":2,"result":{"rateLimits":{"primary":{"usedPercent":25,"windowDurationMins":300}}}}"#,
    );
    let snapshot = server.read_rate_limits(&response, 50).unwrap();
    assert_eq!(snapshot.source, "app-server");
    assert_eq!(snapshot.received_at_ms, Some(50));
    assert_eq!(
        snapshot.five_hour.unwrap().remaining_percent,
        Some(Binary64 { bits: 75.0f64.to_bits() })
    );
    assert_eq!(server.last_bucket.as_deref(), Some("rateLimits fallback"));
    assert_eq!(
        server.read_rate_limits(&json(r#"{"id":3,"result":{}}"#), 51),
        Err("app-server returned no Codex quota bucket".to_string())
    );
    assert_eq!(server.last_bucket, None);
}

#[test]
fn updates_are_noticed_between_requests() {
    let mut server = client();
    let other = json(r#"{"method":"account/updated"}"#);
    assert!(!server.take_update_notification(&vec![other], 5));
    assert_eq!(server.last_notification_ms, None);
    let other = json(r#"{"method":"account/updated"}"#);
    let update = json(r#"{"method":"account/rateLimits/updated"}"#);
    assert!(server.take_update_notification(&vec![update, other], 6));
    assert_eq!(server.last_notification_ms, Some(6));
    assert!(!server.take_update_notification(&vec![], 7));
    assert_eq!(server.last_notification_ms, Some(6));
}

#[test]
fn executables_are_tried_in_order() {
    let mut attempts = AppServerClient::connect(paths(&["codex", "other"]));
    assert!(matches!(attempts.next_attempt(), Attempt::Start(path) if path.ends_with("codex")));
    attempts.failed("not there".into());
    assert!(matches!(attempts.next_attempt(), Attempt::Start(path) if path.ends_with("other")));
    attempts.failed("broken".into());
    assert!(matches!(
        attempts.next_attempt(),
        Attempt::GiveUp(reason) if reason
            == "Codex executable not found or could not initialize. Tried: codex: not there; other: broken"
    ));
}

#[test]
fn a_server_is_given_time_to_stop() {
    assert_eq!(stop_step(0, false), StopStep::Wait);
    assert_eq!(stop_step(299, true), StopStep::Done);
    assert_eq!(stop_step(300, true), StopStep::Kill);
    assert_eq!(stop_step(300, false), StopStep::Kill);
}
