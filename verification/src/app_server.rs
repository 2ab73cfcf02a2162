//! The conversation with the local app server: one JSON message per line, requests answered by
//! identifier, and notifications in between.

use crate::json;
use crate::json::{render_json, Json, JsonNumber};
use crate::paths;
use crate::paths::{path_label, same_path, text_path};
use crate::quota;
use crate::quota::{app_server_bucket_source, parse_app_server_response, QuotaSnapshot};
use crate::session;
use crate::session::newest_first;
use crate::text;
use crate::text::same_text;
use std::path::PathBuf;
use vstd::prelude::*;

verus! {

/// How long the answer to the first request is waited for.
pub const INITIALIZE_TIMEOUT_MS: u64 = 5000;

/// How long the answer to a request for the rate limits is waited for.
pub const READ_TIMEOUT_MS: u64 = 8000;

/// How long a server that was told to stop is given.
pub const STOP_TIMEOUT_MS: u64 = 300;

/// Whether a message carries the given identifier.
pub open spec fn answers(message: Json, id: i64) -> bool {
    match message.member("id"@) {
        Some(value) => value.integer() == Some(id),
        None => false,
    }
}

pub fn response_matches_id(message: &Json, id: i64) -> (result: bool)
    ensures
        result == answers(*message, id),
{
    match message.get("id") {
        Some(value) => match value.as_integer() {
            Some(found) => found == id,
            None => false,
        },
        None => false,
    }
}

/// Whether a message announces new rate limits.
pub open spec fn announces_limits(message: Json) -> bool {
    match message.member("method"@) {
        Some(value) => value.text() == Some("account/rateLimits/updated"@),
        None => false,
    }
}

pub fn is_rate_limits_notification(message: &Json) -> (result: bool)
    ensures
        result == announces_limits(*message),
{
    match message.get("method") {
        Some(value) => match value.as_text() {
            Some(method) => same_text(method, "account/rateLimits/updated"),
            None => false,
        },
        None => false,
    }
}

fn text_member(key: &str, value: &str) -> (member: (String, Json))
    ensures
        member.0@ == key@,
        member.1.text() == Some(value@),
        member.1.integral(),
{
    (key.to_owned(), Json::Text(value.to_owned()))
}

/// A message is an object with just these members.
pub open spec fn request_of(message: Json, id: i64, method: Seq<char>, params: Json) -> bool {
    match message {
        Json::Object(members) => {
            &&& members@.len() == 3
            &&& members@[0].0@ == "id"@
            &&& members@[0].1.integer() == Some(id)
            &&& members@[1].0@ == "method"@
            &&& members@[1].1.text() == Some(method)
            &&& members@[2].0@ == "params"@
            &&& members@[2].1 == params
        },
        _ => false,
    }
}

fn request_message(id: i64, method: &str, params: Json) -> (message: Json)
    ensures
        request_of(message, id, method@, params),
        params.integral() ==> message.integral(),
{
    let number: JsonNumber = JsonNumber { integer: Some(id), double: None };
    let mut members: Vec<(String, Json)> = Vec::new();
    members.push(("id".to_owned(), Json::Number(number)));
    members.push(text_member("method", method));
    members.push(("params".to_owned(), params));
    let message: Json = Json::Object(members);
    assert(members@[0].1.integral());
    message
}

/// A message that is not answered: an object with the method and, where given, parameters.
pub open spec fn notification_of(message: Json, method: Seq<char>, params: Option<Json>) -> bool {
    match message {
        Json::Object(members) => {
            &&& members@.len() == if params is Some {
                2int
            } else {
                1int
            }
            &&& members@[0].0@ == "method"@
            &&& members@[0].1.text() == Some(method)
            &&& params is Some ==> members@[1].0@ == "params"@ && Some(members@[1].1) == params
        },
        _ => false,
    }
}

/// The message that notifies the server.
pub fn notify(method: &str, params: Option<Json>) -> (message: Json)
    ensures
        notification_of(message, method@, params),
        (params matches Some(params) ==> params.integral()) ==> message.integral(),
{
    let mut members: Vec<(String, Json)> = Vec::new();
    members.push(text_member("method", method));
    if let Some(params) = params {
        members.push(("params".to_owned(), params));
    }
    Json::Object(members)
}

/// The parameters of the first request: who the client is.
pub open spec fn client_info_of(params: Json) -> bool {
    match params {
        Json::Object(members) => {
            &&& members@.len() == 1
            &&& members@[0].0@ == "clientInfo"@
            &&& match members@[0].1 {
                Json::Object(info) => {
                    &&& info@.len() == 3
                    &&& info@[0].0@ == "name"@
                    &&& info@[0].1.text() == Some("codex_quota"@)
                    &&& info@[1].0@ == "title"@
                    &&& info@[1].1.text() == Some("Codex Quota"@)
                    &&& info@[2].0@ == "version"@
                    &&& info@[2].1.text() == Some("0.6.1"@)
                },
                _ => false,
            }
        },
        _ => false,
    }
}

pub fn client_info() -> (params: Json)
    ensures
        client_info_of(params),
        params.integral(),
{
    let mut info: Vec<(String, Json)> = Vec::new();
    info.push(text_member("name", "codex_quota"));
    info.push(text_member("title", "Codex Quota"));
    info.push(text_member("version", "0.6.1"));
    let details: Json = Json::Object(info);
    assert(details.integral());
    let mut members: Vec<(String, Json)> = Vec::new();
    members.push(("clientInfo".to_owned(), details));
    let params: Json = Json::Object(members);
    assert(params.integral());
    params
}

/// An object without members.
pub open spec fn empty_object(value: Json) -> bool {
    value matches Json::Object(members) && members@.len() == 0
}

pub fn no_params() -> (params: Json)
    ensures
        empty_object(params),
        params.integral(),
{
    Json::Object(Vec::new())
}

/// The line that carries a message to the server.
pub fn message_line(message: &Json) -> (line: String)
    requires
        message.integral(),
    ensures
        line@ == json::value_text(json::tree_value(*message)).push('\n'),
        text::line_feed_at(line@) == line@.len() - 1,
{
    let mut line: String = render_json(message);
    let ghost rendered = line@;
    line.push('\n');
    proof {
        assert forall|i: int| 0 <= i < rendered.len() implies line@[i] != '\n' by {
            assert(rendered.contains(rendered[i]));
        }
        text::lemma_line_feed_at(line@, rendered.len() as int);
    }
    line
}

/// What came of waiting for an answer.
pub enum Incoming {
    Message(Json),
    /// Nothing more comes, or nothing came in time; with the reason.
    Nothing(String),
}

/// What a request has come to.
pub enum Reply {
    Waiting,
    Answered(Json),
    Failed(String),
}

/// The text of an error: its message, if it has one.
pub open spec fn error_text(error: Json) -> Seq<char> {
    match error.member("message"@) {
        Some(Json::Text(message)) => message@,
        _ => "app-server request failed"@,
    }
}

/// What a reply holds.
pub enum ReplyView {
    Waiting,
    Answered(Json),
    Failed(Seq<char>),
}

impl View for Reply {
    type V = ReplyView;

    open spec fn view(&self) -> ReplyView {
        match self {
            Reply::Waiting => ReplyView::Waiting,
            Reply::Answered(message) => ReplyView::Answered(*message),
            Reply::Failed(reason) => ReplyView::Failed(reason@),
        }
    }
}

/// What a request has come to with what came.
pub open spec fn reply_to(id: i64, method: Seq<char>, incoming: Incoming) -> ReplyView {
    match incoming {
        Incoming::Nothing(reason) => ReplyView::Failed(
            method + " failed while waiting for response: "@ + reason@,
        ),
        Incoming::Message(message) => if announces_limits(message) || !answers(message, id) {
            ReplyView::Waiting
        } else {
            match message.member("error"@) {
                Some(error) => ReplyView::Failed(error_text(error)),
                None => ReplyView::Answered(message),
            }
        },
    }
}

/// The time of the last announcement once something came.
pub open spec fn noted_time(before: Option<i64>, incoming: Incoming, now_ms: i64) -> Option<i64> {
    match incoming {
        Incoming::Message(message) if announces_limits(message) => Some(now_ms),
        _ => before,
    }
}

/// What an answer to a request for the rate limits comes to.
pub open spec fn limits_read(response: Json, now_ms: i64) -> Result<
    quota::QuotaSnapshotView,
    Seq<char>,
> {
    match quota::response_snapshot(response, now_ms) {
        Some(snapshot) => Ok(snapshot),
        None => Err("app-server returned no Codex quota bucket"@),
    }
}

/// What a result of reading the rate limits holds.
pub open spec fn result_view(result: Result<QuotaSnapshot, String>) -> Result<
    quota::QuotaSnapshotView,
    Seq<char>,
> {
    match result {
        Ok(snapshot) => Ok(snapshot@),
        Err(error) => Err(error@),
    }
}

/// One of the messages announces new rate limits.
pub open spec fn any_announces(messages: Seq<Json>) -> bool {
    exists|i: int| 0 <= i < messages.len() && announces_limits(#[trigger] messages[i])
}

/// A request that waits for its answer.
#[derive(Debug)]
pub struct Request {
    pub id: i64,
    pub method: String,
    /// How long the answer is waited for.
    pub timeout_ms: u64,
}

/// The client's side of a conversation with an app server.
#[derive(Debug)]
pub struct AppServerClient {
    pub executable: String,
    pub pid: u32,
    pub next_id: i64,
    pub last_notification_ms: Option<i64>,
    pub last_bucket: Option<String>,
}

impl AppServerClient {
    /// The two conversations have the same server and have made as many requests.
    pub open spec fn same_conversation(self, other: AppServerClient) -> bool {
        &&& self.executable@ == other.executable@
        &&& self.pid == other.pid
        &&& self.next_id == other.next_id
    }

    /// A conversation that has not begun.
    pub fn new(executable: String, pid: u32) -> (client: AppServerClient)
        ensures
            client.executable@ == executable@,
            client.pid == pid,
            client.next_id == 1,
            client.last_notification_ms is None,
            client.last_bucket is None,
    {
        AppServerClient {
            executable,
            pid,
            next_id: 1,
            last_notification_ms: None,
            last_bucket: None,
        }
    }

    pub fn pid(&self) -> (pid: u32)
        ensures
            pid == self.pid,
    {
        self.pid
    }

    pub fn executable(&self) -> (executable: &str)
        ensures
            executable@ == self.executable@,
    {
        self.executable.as_str()
    }

    /// One more request was made, and nothing else has happened.
    pub open spec fn asked(self, before: AppServerClient) -> bool {
        &&& self.executable@ == before.executable@
        &&& self.pid == before.pid
        &&& self.next_id == before.next_id + 1
        &&& self.last_notification_ms == before.last_notification_ms
        &&& self.last_bucket == before.last_bucket
    }

    /// Begins a request: what waits for the answer, and the message to send.
    pub fn request(&mut self, method: &str, params: Json, timeout_ms: u64) -> (sent: (Request, Json))
        requires
            old(self).next_id < i64::MAX,
        ensures
            sent.0.id == old(self).next_id,
            sent.0.method@ == method@,
            sent.0.timeout_ms == timeout_ms,
            request_of(sent.1, sent.0.id, method@, params),
            params.integral() ==> sent.1.integral(),
            final(self).asked(*old(self)),
    {
        let id: i64 = self.next_id;
        self.next_id = id + 1;
        (
            Request { id, method: method.to_owned(), timeout_ms },
            request_message(id, method, params),
        )
    }

    /// Begins the first request, in which the client says who it is.
    pub fn initialize(&mut self) -> (sent: (Request, Json))
        requires
            old(self).next_id < i64::MAX,
        ensures
            sent.0.id == old(self).next_id,
            sent.0.method@ == "initialize"@,
            sent.0.timeout_ms == INITIALIZE_TIMEOUT_MS,
            exists|params: Json| #[trigger]
                request_of(sent.1, sent.0.id, "initialize"@, params) && client_info_of(params),
            sent.1.integral(),
            final(self).asked(*old(self)),
    {
        self.request("initialize", client_info(), INITIALIZE_TIMEOUT_MS)
    }

    /// The message that tells the server that its first answer has arrived.
    pub fn initialized() -> (message: Json)
        ensures
            notification_of(message, "initialized"@, None),
            message.integral(),
    {
        notify("initialized", None)
    }

    /// Begins a request for the rate limits.
    pub fn ask_rate_limits(&mut self) -> (sent: (Request, Json))
        requires
            old(self).next_id < i64::MAX,
        ensures
            sent.0.id == old(self).next_id,
            sent.0.method@ == "account/rateLimits/read"@,
            sent.0.timeout_ms == READ_TIMEOUT_MS,
            exists|params: Json| #[trigger]
                request_of(sent.1, sent.0.id, "account/rateLimits/read"@, params) && empty_object(
                    params,
                ),
            sent.1.integral(),
            final(self).asked(*old(self)),
    {
        self.request("account/rateLimits/read", no_params(), READ_TIMEOUT_MS)
    }

    /// Takes what came while a request waits. A notification is noted; a message with another
    /// identifier is passed over.
    pub fn receive(&mut self, request: &Request, incoming: Incoming, now_ms: i64) -> (reply: Reply)
        ensures
            reply@ == reply_to(request.id, request.method@, incoming),
            final(self).last_notification_ms == noted_time(
                old(self).last_notification_ms,
                incoming,
                now_ms,
            ),
            final(self).same_conversation(*old(self)),
            final(self).last_bucket == old(self).last_bucket,
            final(self).last_notification_ms == (match incoming {
                Incoming::Message(message) if announces_limits(message) => Some(now_ms),
                _ => old(self).last_notification_ms,
            }),
            match incoming {
                Incoming::Nothing(reason) => reply matches Reply::Failed(text) && text@
                    == request.method@ + " failed while waiting for response: "@ + reason@,
                Incoming::Message(message) => if announces_limits(message) || !answers(
                    message,
                    request.id,
                ) {
                    reply is Waiting
                } else {
                    match message.member("error"@) {
                        Some(error) => reply matches Reply::Failed(text) && text@ == error_text(
                            error,
                        ),
                        None => reply == Reply::Answered(message),
                    }
                },
            },
    {
        match incoming {
            Incoming::Nothing(reason) => {
                let mut failure: String = request.method.clone();
                failure.append(" failed while waiting for response: ");
                failure.append(reason.as_str());
                Reply::Failed(failure)
            },
            Incoming::Message(message) => {
                if is_rate_limits_notification(&message) {
                    self.last_notification_ms = Some(now_ms);
                    return Reply::Waiting;
                }
                if !response_matches_id(&message, request.id) {
                    return Reply::Waiting;
                }
                if let Some(error) = message.get("error") {
                    let mut failure: String = "app-server request failed".to_owned();
                    if let Some(value) = error.get("message") {
                        if let Some(text) = value.as_text() {
                            failure = text.to_owned();
                        }
                    }
                    return Reply::Failed(failure);
                }
                Reply::Answered(message)
            },
        }
    }

    /// Takes the answer to a request for the rate limits.
    pub fn read_rate_limits(&mut self, response: &Json, now_ms: i64) -> (result: Result<
        QuotaSnapshot,
        String,
    >)
        ensures
            result_view(result) == limits_read(*response, now_ms),
            final(self).same_conversation(*old(self)),
            final(self).last_notification_ms == old(self).last_notification_ms,
            quota::text_view(final(self).last_bucket) == quota::bucket_source(*response),
            match quota::response_snapshot(*response, now_ms) {
                Some(snapshot) => result matches Ok(read) && read@ == snapshot,
                None => result matches Err(text) && text@
                    == "app-server returned no Codex quota bucket"@,
            },
    {
        self.last_bucket = match app_server_bucket_source(response) {
            Some(source) => Some(source.to_owned()),
            None => None,
        };
        match parse_app_server_response(response, now_ms) {
            Some(snapshot) => Ok(snapshot),
            None => Err("app-server returned no Codex quota bucket".to_owned()),
        }
    }

    /// Takes the messages that came while no request was waiting: whether one of them announces
    /// new rate limits.
    pub fn take_update_notification(&mut self, messages: &Vec<Json>, now_ms: i64) -> (found: bool)
        ensures
            found == any_announces(messages@),
            found == exists|i: int|
                0 <= i < messages@.len() && announces_limits(#[trigger] messages@[i]),
            final(self).same_conversation(*old(self)),
            final(self).last_bucket == old(self).last_bucket,
            final(self).last_notification_ms == if found {
                Some(now_ms)
            } else {
                old(self).last_notification_ms
            },
    {
        let mut found: bool = false;
        let mut i: usize = 0;
        while i < messages.len()
            invariant
                i <= messages@.len(),
                found == exists|j: int| 0 <= j < i && announces_limits(#[trigger] messages@[j]),
                self.same_conversation(*old(self)),
                self.last_bucket == old(self).last_bucket,
                self.last_notification_ms == if found {
                    Some(now_ms)
                } else {
                    old(self).last_notification_ms
                },
            decreases messages.len() - i,
        {
            if is_rate_limits_notification(&messages[i]) {
                found = true;
                self.last_notification_ms = Some(now_ms);
            }
            i = i + 1;
        }
        found
    }

    /// Starts looking for an executable that can be started as app server.
    pub fn connect(candidates: Vec<PathBuf>) -> (attempts: Attempts)
        ensures
            attempts.candidates() == candidates@,
            attempts.errors() == Seq::<Seq<char>>::empty(),
    {
        let attempts: Attempts = Attempts { candidates, errors: Vec::new() };
        assert(attempts.errors() =~= Seq::<Seq<char>>::empty());
        attempts
    }
}

/// The executables to try, and the errors of those that were tried.
pub struct Attempts {
    candidates: Vec<PathBuf>,
    errors: Vec<String>,
}

/// What to do next to find an executable.
pub enum Attempt<'a> {
    Start(&'a PathBuf),
    GiveUp(String),
}

/// The failures of the first `count` candidates, one after the other.
pub open spec fn failures(
    candidates: Seq<PathBuf>,
    errors: Seq<Seq<char>>,
    count: nat,
) -> Seq<char>
    decreases count,
{
    if count == 0 {
        Seq::empty()
    } else {
        let last = paths::path_text(candidates[count - 1]) + ": "@ + errors[count - 1];
        if count == 1 {
            last
        } else {
            failures(candidates, errors, (count - 1) as nat) + "; "@ + last
        }
    }
}

impl Attempts {
    #[verifier::type_invariant]
    spec fn wf(self) -> bool {
        self.errors@.len() <= self.candidates@.len()
    }

    pub closed spec fn candidates(self) -> Seq<PathBuf> {
        self.candidates@
    }

    pub closed spec fn errors(self) -> Seq<Seq<char>> {
        text::texts(self.errors@)
    }

    /// The first executable that was not tried; once all have failed, the text that says so.
    pub fn next_attempt(&self) -> (attempt: Attempt<'_>)
        ensures
            match attempt {
                Attempt::Start(executable) => self.errors().len() < self.candidates().len()
                    && *executable == self.candidates()[self.errors().len() as int],
                Attempt::GiveUp(failure) => self.errors().len() == self.candidates().len()
                    && failure@
                    == "Codex executable not found or could not initialize. Tried: "@ + failures(
                    self.candidates(),
                    self.errors(),
                    self.errors().len(),
                ),
            },
    {
        proof {
            use_type_invariant(self);
        }
        if self.errors.len() < self.candidates.len() {
            return Attempt::Start(&self.candidates[self.errors.len()]);
        }
        let mut tried: String = String::new();
        let mut i: usize = 0;
        while i < self.errors.len()
            invariant
                i <= self.errors@.len() == self.candidates@.len(),
                tried@ == failures(self.candidates(), self.errors(), i as nat),
            decreases self.errors.len() - i,
        {
            let ghost past = tried@;
            if i > 0 {
                tried.append("; ");
            }
            tried.append(path_label(&self.candidates[i]).as_str());
            tried.append(": ");
            tried.append(self.errors[i].as_str());
            i = i + 1;
            assert(tried@ =~= failures(self.candidates(), self.errors(), i as nat));
        }
        let mut failure: String =
            "Codex executable not found or could not initialize. Tried: ".to_owned();
        failure.append(tried.as_str());
        Attempt::GiveUp(failure)
    }

    /// Notes that the executable tried last could not be started, and why.
    pub fn failed(&mut self, error: String)
        requires
            old(self).errors().len() < old(self).candidates().len(),
        ensures
            final(self).candidates() == old(self).candidates(),
            final(self).errors() == old(self).errors().push(error@),
    {
        let mut errors: Vec<String> = Vec::new();
        std::mem::swap(&mut errors, &mut self.errors);
        errors.push(error);
        self.errors = errors;
        assert(self.errors() =~= old(self).errors().push(error@));
    }
}

/// The official executables: the one installed directly, then those of the versions, newest first.
pub open spec fn official_candidates(
    direct: Option<PathBuf>,
    versioned: Seq<(Option<i128>, PathBuf)>,
    order: Seq<usize>,
) -> Seq<PathBuf> {
    (match direct {
        Some(direct) => seq![direct],
        None => Seq::empty(),
    }) + order.map_values(|at: usize| versioned[at as int].1)
}

/// The times of modification in a list of executables.
pub open spec fn modified_times(versioned: Seq<(Option<i128>, PathBuf)>) -> Seq<Option<i128>> {
    versioned.map_values(|entry: (Option<i128>, PathBuf)| entry.0)
}

pub fn official_install_candidates(
    direct: Option<PathBuf>,
    versioned: Vec<(Option<i128>, PathBuf)>,
) -> (candidates: Vec<PathBuf>)
    ensures
        exists|order: Seq<usize>| #[trigger]
            session::newest_order(order, modified_times(versioned@)) && candidates@
                == official_candidates(direct, versioned@, order),
{
    let mut modified: Vec<Option<i128>> = Vec::new();
    let mut i: usize = 0;
    while i < versioned.len()
        invariant
            i <= versioned@.len(),
            modified@ == modified_times(versioned@.take(i as int)),
        decreases versioned.len() - i,
    {
        modified.push(versioned[i].0);
        i = i + 1;
        assert(modified@ =~= modified_times(versioned@.take(i as int)));
    }
    assert(versioned@.take(i as int) =~= versioned@);
    let order: Vec<usize> = newest_first(&modified);
    let mut candidates: Vec<PathBuf> = Vec::new();
    let ghost first = direct;
    if let Some(direct) = direct {
        candidates.push(direct);
    }
    let mut j: usize = 0;
    assert(candidates@ =~= official_candidates(first, versioned@, order@.take(0)));
    while j < order.len()
        invariant
            j <= order@.len(),
            session::newest_order(order@, modified_times(versioned@)),
            candidates@ == official_candidates(first, versioned@, order@.take(j as int)),
        decreases order.len() - j,
    {
        assert(order@[j as int] < modified_times(versioned@).len());
        candidates.push(versioned[order[j]].1.clone());
        assert(order@.take(j + 1) =~= order@.take(j as int).push(order@[j as int]));
        j = j + 1;
        assert(candidates@ =~= official_candidates(first, versioned@, order@.take(j as int)));
    }
    assert(order@.take(j as int) =~= order@);
    candidates
}

/// A list without those of its paths that have the same components as the one kept before them.
pub open spec fn without_repeats(list: Seq<PathBuf>) -> Seq<PathBuf>
    decreases list.len(),
{
    if list.len() <= 1 {
        list
    } else {
        let kept = without_repeats(list.drop_last());
        if paths::same_place(list.last(), kept.last()) {
            kept
        } else {
            kept.push(list.last())
        }
    }
}

/// All executables to try, before repeats are dropped: the one on the search path, the official
/// ones, the standalone one.
pub open spec fn all_candidates(
    on_path: PathBuf,
    official: Seq<PathBuf>,
    standalone: Option<PathBuf>,
) -> Seq<PathBuf> {
    seq![on_path] + official + (match standalone {
        Some(standalone) => seq![standalone],
        None => Seq::empty(),
    })
}

/// The executables to try, in order.
pub fn codex_candidates(official: Vec<PathBuf>, standalone: Option<PathBuf>) -> (candidates: Vec<
    PathBuf,
>)
    ensures
        exists|on_path: PathBuf|
            paths::path_text(on_path) == "codex"@ && candidates@ == without_repeats(
                #[trigger] all_candidates(on_path, official@, standalone),
            ),
{
    let mut all: Vec<PathBuf> = Vec::new();
    let on_path: PathBuf = text_path("codex");
    let ghost first = on_path;
    let ghost last = standalone;
    all.push(on_path);
    let mut rest: Vec<PathBuf> = official;
    all.append(&mut rest);
    if let Some(standalone) = standalone {
        all.push(standalone);
    }
    assert(all@ =~= all_candidates(first, official@, last));
    let mut candidates: Vec<PathBuf> = Vec::new();
    candidates.push(all[0].clone());
    assert(candidates@ =~= without_repeats(all@.take(1)));
    let mut i: usize = 1;
    while i < all.len()
        invariant
            1 <= i <= all@.len(),
            candidates@.len() > 0,
            candidates@ == without_repeats(all@.take(i as int)),
        decreases all.len() - i,
    {
        proof {
            assert(all@.take(i + 1).drop_last() =~= all@.take(i as int));
        }
        if !same_path(&all[i], &candidates[candidates.len() - 1]) {
            candidates.push(all[i].clone());
        }
        i = i + 1;
    }
    assert(all@.take(i as int) =~= all@);
    candidates
}

/// The executable on the search path is tried first, the last candidate last, unless it repeats
/// the one before it, and none is tried twice in a row.
pub proof fn law_candidates_do_not_repeat(
    on_path: PathBuf,
    official: Seq<PathBuf>,
    standalone: Option<PathBuf>,
)
    ensures
        ({
            let all = all_candidates(on_path, official, standalone);
            let tried = without_repeats(all);
            &&& tried.len() > 0
            &&& tried[0] == on_path
            &&& tried.last() == all.last() || paths::same_place(all.last(), tried.last())
            &&& forall|i: int|
                0 < i < tried.len() ==> !paths::same_place(#[trigger] tried[i], tried[i - 1])
        }),
{
    lemma_without_repeats(all_candidates(on_path, official, standalone));
}

proof fn lemma_without_repeats(list: Seq<PathBuf>)
    requires
        list.len() > 0,
    ensures
        ({
            let kept = without_repeats(list);
            &&& kept.len() > 0
            &&& kept[0] == list[0]
            &&& kept.last() == list.last() || paths::same_place(list.last(), kept.last())
            &&& forall|i: int|
                0 < i < kept.len() ==> !paths::same_place(#[trigger] kept[i], kept[i - 1])
        }),
    decreases list.len(),
{
    if list.len() > 1 {
        lemma_without_repeats(list.drop_last());
    }
}

/// What to do about a server that was told to stop.
#[derive(Clone, Copy, Debug, PartialEq, Eq, Structural)]
pub enum StopStep {
    Done,
    Wait,
    Kill,
}

/// What to do about a server so long after it was told to stop.
pub open spec fn stopping(waited_ms: int, exited: bool) -> StopStep {
    if waited_ms >= STOP_TIMEOUT_MS {
        StopStep::Kill
    } else if exited {
        StopStep::Done
    } else {
        StopStep::Wait
    }
}

/// Looks at a server that was told to stop some time ago.
pub fn stop_step(waited_ms: u64, exited: bool) -> (step: StopStep)
    ensures
        step == stopping(waited_ms as int, exited),
        step == if waited_ms >= STOP_TIMEOUT_MS {
            StopStep::Kill
        } else if exited {
            StopStep::Done
        } else {
            StopStep::Wait
        },
{
    if waited_ms >= STOP_TIMEOUT_MS {
        StopStep::Kill
    } else if exited {
        StopStep::Done
    } else {
        StopStep::Wait
    }
}

/// A request is answered by messages with its own identifier, and carries its method and
/// parameters under their names.
pub proof fn law_a_request_is_told_by_its_identifier(
    message: Json,
    id: i64,
    method: Seq<char>,
    params: Json,
    other: i64,
)
    requires
        request_of(message, id, method, params),
    ensures
        answers(message, id),
        other != id ==> !answers(message, other),
        message.member("id"@) matches Some(value) && value.integer() == Some(id),
        message.member("method"@) matches Some(value) && value.text() == Some(method),
        message.member("params"@) == Some(params),
        announces_limits(message) <==> method == "account/rateLimits/updated"@,
        message.member("error"@) is None,
{
    lemma_message_keys();
    reveal_with_fuel(json::lookup, 4);
    let members = message->Object_0@;
    let second = members.drop_first();
    let third = second.drop_first();
    assert(second[0] == members[1] && third[0] == members[2]);
    assert(third.drop_first().len() == 0);
}

/// A notification answers no request, and carries its method, and its parameters where it has any.
pub proof fn law_a_notification_answers_nothing(
    message: Json,
    method: Seq<char>,
    params: Option<Json>,
    id: i64,
)
    requires
        notification_of(message, method, params),
    ensures
        !answers(message, id),
        message.member("method"@) matches Some(value) && value.text() == Some(method),
        message.member("params"@) == params,
        announces_limits(message) <==> method == "account/rateLimits/updated"@,
{
    lemma_message_keys();
    reveal_with_fuel(json::lookup, 4);
    let members = message->Object_0@;
    let second = members.drop_first();
    if params is Some {
        assert(second[0] == members[1]);
        assert(second.drop_first().len() == 0);
    } else {
        assert(second.len() == 0);
    }
}

proof fn lemma_message_keys()
    ensures
        "id"@ != "method"@,
        "id"@ != "params"@,
        "id"@ != "error"@,
        "method"@ != "params"@,
        "method"@ != "error"@,
        "params"@ != "error"@,
{
    reveal_strlit("id");
    reveal_strlit("method");
    reveal_strlit("params");
    reveal_strlit("error");
    assert("id"@.len() == 2 && "method"@[0] == 'm' && "params"@[0] == 'p' && "error"@[0] == 'e');
    assert("id"@[0] == 'i');
}

/// The client says its name, its title and its version, and no more.
pub proof fn law_the_client_says_who_it_is(params: Json, key: Seq<char>)
    requires
        client_info_of(params),
    ensures
        params.member("clientInfo"@) matches Some(info) && {
            &&& info.member("name"@) matches Some(value) && value.text() == Some("codex_quota"@)
            &&& info.member("title"@) matches Some(value) && value.text() == Some("Codex Quota"@)
            &&& info.member("version"@) matches Some(value) && value.text() == Some("0.6.1"@)
            &&& key != "name"@ && key != "title"@ && key != "version"@ ==> info.member(key) is None
        },
        key != "clientInfo"@ ==> params.member(key) is None,
{
    reveal_strlit("name");
    reveal_strlit("title");
    reveal_strlit("version");
    assert("name"@[0] == 'n' && "title"@[0] == 't' && "version"@[0] == 'v');
    reveal_with_fuel(json::lookup, 4);
    let members = params->Object_0@;
    assert(members.drop_first().len() == 0);
    let info = members[0].1->Object_0@;
    let second = info.drop_first();
    let third = second.drop_first();
    assert(second[0] == info[1] && third[0] == info[2]);
    assert(third.drop_first().len() == 0);
}

/// A message answers a request exactly if its identifier is that integer; it announces new limits
/// exactly if its method is that text.
pub proof fn law_what_a_message_is(message: Json, id: i64)
    ensures
        answers(message, id) <==> (message.member("id"@) matches Some(Json::Number(number))
            && number.integer == Some(id)),
        announces_limits(message) <==> (message.member("method"@) matches Some(Json::Text(method))
            && method@ == "account/rateLimits/updated"@),
{
}

/// An error is told by its message, if that is a text, and else in general.
pub proof fn law_errors_are_told(error: Json)
    ensures
        error.member("message"@) matches Some(Json::Text(message)) ==> error_text(error) == message@,
        !(error.member("message"@) matches Some(Json::Text(_))) ==> error_text(error)
            == "app-server request failed"@,
{
}

/// Every candidate that failed is told with its reason, one after the other.
pub proof fn law_every_failure_is_told(
    candidates: Seq<PathBuf>,
    errors: Seq<Seq<char>>,
    count: nat,
)
    ensures
        failures(candidates, errors, 0) == Seq::<char>::empty(),
        failures(candidates, errors, 1) == paths::path_text(candidates[0]) + ": "@ + errors[0],
        failures(candidates, errors, count + 2) == failures(candidates, errors, count + 1) + "; "@
            + (paths::path_text(candidates[count as int + 1]) + ": "@ + errors[count as int + 1]),
{
    reveal_with_fuel(failures, 2);
}

/// The official executables are the one installed directly, if there is one, and then those of all
/// versions, newer ones before older ones and before those of unknown age.
pub proof fn law_newer_versions_are_tried_first(
    direct: Option<PathBuf>,
    versioned: Seq<(Option<i128>, PathBuf)>,
    order: Seq<usize>,
)
    requires
        session::newest_order(order, modified_times(versioned)),
    ensures
        ({
            let tried = official_candidates(direct, versioned, order);
            let first = if direct is Some {
                1int
            } else {
                0int
            };
            &&& tried.len() == first + versioned.len()
            &&& direct is Some ==> tried[0] == direct->0
            &&& forall|i: int|
                0 <= i < order.len() ==> order[i] < versioned.len() && tried[first + i]
                    == versioned[#[trigger] order[i] as int].1
            &&& forall|i: int, j: int|
                0 <= i < j < order.len() ==> match (
                    versioned[#[trigger] order[i] as int].0,
                    versioned[#[trigger] order[j] as int].0,
                ) {
                    (Some(a), Some(b)) => a >= b,
                    (Some(_), None) => true,
                    (None, Some(_)) => false,
                    (None, None) => true,
                }
            &&& forall|k: usize| k < versioned.len() ==> #[trigger] order.contains(k)
        }),
{
    let times = modified_times(versioned);
    session::law_newest_files_come_first(order, times);
    assert forall|i: int| 0 <= i < order.len() implies (#[trigger] order[i]) < versioned.len() by {
        assert(order[i] < times.len());
    }
}

/// The executable on the search path comes first, then the official ones in their order, then the
/// standalone one.
pub proof fn law_the_order_of_candidates(
    on_path: PathBuf,
    official: Seq<PathBuf>,
    standalone: Option<PathBuf>,
)
    ensures
        ({
            let all = all_candidates(on_path, official, standalone);
            &&& all[0] == on_path
            &&& forall|i: int| 0 <= i < official.len() ==> all[1 + i] == #[trigger] official[i]
            &&& standalone is None ==> all.len() == 1 + official.len()
            &&& standalone is Some ==> all.len() == 2 + official.len() && all.last()
                == standalone->0
        }),
{
}

/// Dropping repeats loses nothing: every candidate is kept, or has the components of one that is;
/// where no candidate repeats the one before it all of them are kept.
pub proof fn law_only_repeats_are_dropped(list: Seq<PathBuf>)
    ensures
        forall|i: int|
            0 <= i < list.len() ==> exists|k: int|
                0 <= k < without_repeats(list).len() && (#[trigger] without_repeats(list)[k]
                    == #[trigger] list[i] || paths::same_place(list[i], without_repeats(list)[k])),
        (forall|i: int| 0 < i < list.len() ==> !paths::same_place(#[trigger] list[i], list[i - 1]))
            ==> without_repeats(list) == list,
    decreases list.len(),
{
    if list.len() > 1 {
        let rest = list.drop_last();
        let before = without_repeats(rest);
        let kept = without_repeats(list);
        law_only_repeats_are_dropped(rest);
        lemma_without_repeats(rest);
        assert forall|i: int| 0 <= i < list.len() implies exists|k: int|
            0 <= k < kept.len() && (#[trigger] kept[k] == #[trigger] list[i] || paths::same_place(
                list[i],
                kept[k],
            )) by {
            if i < rest.len() {
                assert(rest[i] == list[i]);
                let k = choose|k: int|
                    0 <= k < before.len() && (#[trigger] before[k] == rest[i] || paths::same_place(
                        rest[i],
                        before[k],
                    ));
                assert(kept[k] == before[k]);
            } else {
                assert(kept[kept.len() - 1] == kept.last());
                assert(kept[kept.len() - 1] == list[i] || paths::same_place(
                    list[i],
                    kept[kept.len() - 1],
                ));
            }
        }
        if forall|i: int| 0 < i < list.len() ==> !paths::same_place(#[trigger] list[i], list[i - 1]) {
            assert forall|i: int| 0 < i < rest.len() implies !paths::same_place(
                #[trigger] rest[i],
                rest[i - 1],
            ) by {
                assert(rest[i] == list[i]);
            }
            assert(before == rest);
            assert(!paths::same_place(list[list.len() - 1], list[list.len() - 2]));
            assert(kept =~= list);
        }
    } else if list.len() == 1 {
        assert(without_repeats(list)[0] == list[0]);
    }
}

/// While a request waits, announcements and messages for others are passed over. The answer ends
/// the wait: with its error, told by its message if it has one, or as it is. Where nothing comes
/// the request has failed, with its method and the reason.
pub proof fn law_how_a_request_ends(
    id: i64,
    method: Seq<char>,
    message: Json,
    reason: String,
    error: Json,
    told: String,
)
    ensures
        reply_to(id, method, Incoming::Nothing(reason)) == ReplyView::Failed(
            method + " failed while waiting for response: "@ + reason@,
        ),
        (message.member("method"@) matches Some(Json::Text(name)) && name@
            == "account/rateLimits/updated"@) ==> reply_to(id, method, Incoming::Message(message))
            == ReplyView::Waiting,
        !(message.member("id"@) matches Some(Json::Number(number)) && number.integer == Some(id))
            ==> reply_to(id, method, Incoming::Message(message)) == ReplyView::Waiting,
        (message.member("id"@) matches Some(Json::Number(number)) && number.integer == Some(id))
            && !(message.member("method"@) matches Some(Json::Text(name)) && name@
            == "account/rateLimits/updated"@) ==> {
            &&& message.member("error"@) is None ==> reply_to(
                id,
                method,
                Incoming::Message(message),
            ) == ReplyView::Answered(message)
            &&& message.member("error"@) == Some(error) && error.member("message"@) == Some(
                Json::Text(told),
            ) ==> reply_to(id, method, Incoming::Message(message)) == ReplyView::Failed(told@)
            &&& message.member("error"@) == Some(error) && !(error.member("message"@) matches Some(
                Json::Text(_),
            )) ==> reply_to(id, method, Incoming::Message(message)) == ReplyView::Failed(
                "app-server request failed"@,
            )
        },
{
}

/// The time of the last announcement is noted when one comes, and at no other time.
pub proof fn law_announcements_are_noted(
    before: Option<i64>,
    message: Json,
    reason: String,
    now_ms: i64,
)
    ensures
        noted_time(before, Incoming::Nothing(reason), now_ms) == before,
        (message.member("method"@) matches Some(Json::Text(name)) && name@
            == "account/rateLimits/updated"@) ==> noted_time(
            before,
            Incoming::Message(message),
            now_ms,
        ) == Some(now_ms),
        !(message.member("method"@) matches Some(Json::Text(name)) && name@
            == "account/rateLimits/updated"@) ==> noted_time(
            before,
            Incoming::Message(message),
            now_ms,
        ) == before,
{
}

/// An answer gives the quota that it holds, or says that it holds none.
pub proof fn law_limits_are_read_or_missed(response: Json, now_ms: i64)
    ensures
        quota::response_snapshot(response, now_ms) matches Some(snapshot) ==> limits_read(
            response,
            now_ms,
        ) == Ok::<quota::QuotaSnapshotView, Seq<char>>(snapshot),
        quota::response_snapshot(response, now_ms) is None ==> limits_read(response, now_ms) == Err::<
            quota::QuotaSnapshotView,
            Seq<char>,
        >("app-server returned no Codex quota bucket"@),
{
}

/// Messages announce new limits exactly if one of them does, wherever it stands.
pub proof fn law_one_announcement_is_enough(before: Seq<Json>, message: Json, after: Seq<Json>)
    ensures
        any_announces(before.push(message) + after) <==> any_announces(before) || (message.member(
            "method"@,
        ) matches Some(Json::Text(name)) && name@ == "account/rateLimits/updated"@) || any_announces(
            after,
        ),
        !any_announces(Seq::empty()),
{
    let all = before.push(message) + after;
    if any_announces(before) {
        let i = choose|i: int| 0 <= i < before.len() && announces_limits(#[trigger] before[i]);
        assert(announces_limits(all[i]));
    }
    if announces_limits(message) {
        assert(announces_limits(all[before.len() as int]));
    }
    if any_announces(after) {
        let i = choose|i: int| 0 <= i < after.len() && announces_limits(#[trigger] after[i]);
        assert(announces_limits(all[before.len() + 1 + i]));
    }
    if any_announces(all) {
        let i = choose|i: int| 0 <= i < all.len() && announces_limits(#[trigger] all[i]);
        if i < before.len() {
            assert(announces_limits(before[i]));
        } else if i > before.len() {
            assert(announces_limits(after[i - before.len() - 1]));
        }
    }
}

/// A server that was told to stop is given 300 milliseconds, and then ended.
pub proof fn law_a_server_is_given_time_to_stop(waited_ms: int)
    ensures
        waited_ms >= 300 ==> stopping(waited_ms, true) == StopStep::Kill && stopping(
            waited_ms,
            false,
        ) == StopStep::Kill,
        waited_ms < 300 ==> stopping(waited_ms, true) == StopStep::Done && stopping(
            waited_ms,
            false,
        ) == StopStep::Wait,
        INITIALIZE_TIMEOUT_MS == 5000,
        READ_TIMEOUT_MS == 8000,
{
}

} // verus!
