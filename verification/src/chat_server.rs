//! The chat proxy: what was said in each session, how a prompt is put
//! together, how the lines of the command-line assistant become
//! server-sent events, and where the key of the service is found.
//!
//! Nothing here listens, sends or runs a program. Whoever does hands
//! over the texts and sends on what comes back.

use vstd::prelude::*;
use crate::json_text::{
    json_compact, json_compact_text, json_field, json_field_of, json_member, json_member_text,
    json_quote, json_quoted, JsonField, JsonFieldView,
};
use crate::distinct::texts;
use crate::text::{
    split_on, split_once, split_once_text, split_text, str_eq, str_starts_with, trim, trimmed,
};

verus! {

/// Where the chat server listens.
pub const CHAT_SERVER_ADDR: &'static str = "127.0.0.1:19824";

/// One thing said in a session.
#[derive(Debug)]
pub struct ChatMessage {
    pub role: String,
    pub content: String,
}

impl Clone for ChatMessage {
    fn clone(&self) -> (r: Self)
        ensures
            r == *self,
    {
        ChatMessage { role: self.role.clone(), content: self.content.clone() }
    }
}

/// What was said in one session.
#[derive(Debug)]
pub struct Session {
    pub id: String,
    pub messages: Vec<ChatMessage>,
}

/// What was said in each session.
#[derive(Debug)]
pub struct SessionStore {
    sessions: Vec<Session>,
}

/// Whether no two sessions share an id.
pub open spec fn unique_sessions(sessions: Seq<Session>) -> bool {
    forall|i: int, j: int|
        0 <= i < j < sessions.len() ==> (#[trigger] sessions[i]).id@ != (#[trigger] sessions[j]).id@
}

/// What was said in the session of the id, in order; nothing where there
/// is no such session.
pub open spec fn said_in(sessions: Seq<Session>, id: Seq<char>) -> Seq<ChatMessage> {
    if exists|i: int| 0 <= i < sessions.len() && (#[trigger] sessions[i]).id@ == id {
        let i = choose|i: int| 0 <= i < sessions.len() && (#[trigger] sessions[i]).id@ == id;
        sessions[i].messages@
    } else {
        Seq::empty()
    }
}

/// Among sessions with unique ids, what was said in the session of an id
/// is what the session with that id holds.
pub proof fn lemma_said_at(sessions: Seq<Session>, i: int)
    requires
        unique_sessions(sessions),
        0 <= i < sessions.len(),
    ensures
        said_in(sessions, sessions[i].id@) == sessions[i].messages@,
{
    let id = sessions[i].id@;
    let w = choose|w: int| 0 <= w < sessions.len() && (#[trigger] sessions[w]).id@ == id;
    if w < i {
        assert(sessions[w].id@ != sessions[i].id@);
    } else if i < w {
        assert(sessions[i].id@ != sessions[w].id@);
    }
}

impl SessionStore {
    /// The sessions, in the order in which they began.
    pub closed spec fn sessions(&self) -> Seq<Session> {
        self.sessions@
    }

    /// The invariant of the store: no two sessions share an id.
    pub open spec fn wf(&self) -> bool {
        unique_sessions(self.sessions())
    }

    /// What was said in the session of the id, in order.
    pub open spec fn messages(&self, id: Seq<char>) -> Seq<ChatMessage> {
        said_in(self.sessions(), id)
    }

    /// A store in which nothing was said yet.
    pub fn new() -> (s: SessionStore)
        ensures
            s.wf(),
            s.sessions().len() == 0,
    {
        SessionStore { sessions: Vec::new() }
    }

    fn find(&self, session_id: &str) -> (r: Option<usize>)
        ensures
            match r {
                Some(i) => i < self.sessions().len() && self.sessions()[i as int].id@
                    == session_id@,
                None => forall|k: int|
                    0 <= k < self.sessions().len() ==> (#[trigger] self.sessions()[k]).id@
                        != session_id@,
            },
    {
        let mut i: usize = 0;
        while i < self.sessions.len()
            invariant
                i <= self.sessions.len(),
                forall|k: int| 0 <= k < i ==> (#[trigger] self.sessions[k]).id@ != session_id@,
            decreases self.sessions.len() - i,
        {
            if str_eq(self.sessions[i].id.as_str(), session_id) {
                return Some(i);
            }
            i = i + 1;
        }
        None
    }

    /// Adds what was said to the end of a session, which begins with it
    /// where nothing was said in it before.
    pub fn add_message(&mut self, session_id: &str, role: &str, content: &str)
        requires
            old(self).wf(),
        ensures
            final(self).wf(),
            final(self).messages(session_id@).len() == old(self).messages(session_id@).len() + 1,
            final(self).messages(session_id@).drop_last() == old(self).messages(session_id@),
            final(self).messages(session_id@).last().role@ == role@,
            final(self).messages(session_id@).last().content@ == content@,
            forall|other: Seq<char>|
                other != session_id@ ==> final(self).messages(other) == old(self).messages(other),
    {
        let ghost before = self.sessions();
        let message = ChatMessage { role: role.to_string(), content: content.to_string() };
        match self.find(session_id) {
            Some(i) => {
                proof {
                    lemma_said_at(before, i as int);
                }
                let mut session = self.sessions.remove(i);
                let ghost earlier = session.messages@;
                session.messages.push(message);
                assert(session.messages@.drop_last() =~= earlier);
                self.sessions.insert(i, session);
                proof {
                    let after = self.sessions();
                    assert(after.len() == before.len());
                    assert forall|k: int| 0 <= k < after.len() implies (#[trigger] after[k]).id@
                        == before[k].id@ by {}
                    assert forall|a: int, b: int| 0 <= a < b < after.len() implies (
                    #[trigger] after[a]).id@ != (#[trigger] after[b]).id@ by {
                        assert(before[a].id@ != before[b].id@);
                    }
                    lemma_said_at(after, i as int);
                    assert forall|other: Seq<char>| other != session_id@ implies said_in(
                        after,
                        other,
                    ) == said_in(before, other) by {
                        lemma_said_same(before, after, other);
                    }
                }
            },
            None => {
                let mut messages: Vec<ChatMessage> = Vec::new();
                messages.push(message);
                self.sessions.push(Session { id: session_id.to_string(), messages });
                proof {
                    let after = self.sessions();
                    assert(said_in(before, session_id@) =~= Seq::<ChatMessage>::empty());
                    lemma_said_at(after, before.len() as int);
                    assert(after[before.len() as int].messages@.drop_last()
                        =~= Seq::<ChatMessage>::empty());
                    assert forall|other: Seq<char>| other != session_id@ implies said_in(
                        after,
                        other,
                    ) == said_in(before, other) by {
                        lemma_said_same(before, after, other);
                    }
                }
            },
        }
    }

    /// What was said in a session, in order.
    pub fn get_messages(&self, session_id: &str) -> (r: Vec<ChatMessage>)
        requires
            self.wf(),
        ensures
            r@ == self.messages(session_id@),
    {
        match self.find(session_id) {
            Some(i) => {
                proof {
                    lemma_said_at(self.sessions(), i as int);
                }
                let said = &self.sessions[i].messages;
                let mut out: Vec<ChatMessage> = Vec::new();
                let mut k: usize = 0;
                while k < said.len()
                    invariant
                        k <= said.len(),
                        out@ == said@.take(k as int),
                    decreases said.len() - k,
                {
                    out.push(said[k].clone());
                    k = k + 1;
                    assert(out@ =~= said@.take(k as int));
                }
                assert(said@.take(said.len() as int) =~= said@);
                out
            },
            None => {
                let out: Vec<ChatMessage> = Vec::new();
                assert(out@ =~= self.messages(session_id@));
                out
            },
        }
    }
}

/// Two lists of sessions with the same ids at the same places, of which
/// the second may hold one session more, agree on what was said in every
/// session that they hold alike.
pub proof fn lemma_said_same(before: Seq<Session>, after: Seq<Session>, other: Seq<char>)
    requires
        unique_sessions(before),
        unique_sessions(after),
        before.len() <= after.len() <= before.len() + 1,
        forall|k: int| 0 <= k < before.len() ==> (#[trigger] after[k]).id@ == before[k].id@,
        forall|k: int|
            0 <= k < before.len() && (#[trigger] before[k]).id@ == other ==> after[k].messages@
                == before[k].messages@,
        after.len() > before.len() ==> after[before.len() as int].id@ != other,
    ensures
        said_in(after, other) == said_in(before, other),
{
    if exists|i: int| 0 <= i < before.len() && (#[trigger] before[i]).id@ == other {
        let i = choose|i: int| 0 <= i < before.len() && (#[trigger] before[i]).id@ == other;
        assert(after[i].id@ == other);
        lemma_said_at(before, i);
        lemma_said_at(after, i);
    } else {
        if exists|i: int| 0 <= i < after.len() && (#[trigger] after[i]).id@ == other {
            let i = choose|i: int| 0 <= i < after.len() && (#[trigger] after[i]).id@ == other;
            if i < before.len() {
                assert(before[i].id@ == other);
            }
        }
    }
}

/// The line by which an event is sent on: its type and its data as a
/// JSON object after `data: `, and an empty line.
pub open spec fn sse_text(event_type: Seq<char>, data: Seq<char>) -> Seq<char> {
    "data: {\"type\":"@ + json_quoted(event_type) + ",\"data\":"@ + json_quoted(data) + "}\n\n"@
}

/// The line by which an event is sent on.
pub fn format_sse(event_type: &str, data: &str) -> (r: String)
    ensures
        r@ == sse_text(event_type@, data@),
{
    let mut line = "data: {\"type\":".to_string();
    line.append(json_quote(event_type).as_str());
    line.append(",\"data\":");
    line.append(json_quote(data).as_str());
    line.append("}\n\n");
    line
}

/// What was said, written as a prompt: each message as its role, a colon
/// and its content, with an empty line between two messages.
pub open spec fn prompt_text(messages: Seq<ChatMessage>) -> Seq<char>
    decreases messages.len(),
{
    if messages.len() == 0 {
        Seq::empty()
    } else if messages.len() == 1 {
        messages[0].role@ + ": "@ + messages[0].content@
    } else {
        prompt_text(messages.drop_last()) + "\n\n"@ + messages.last().role@ + ": "@
            + messages.last().content@
    }
}

/// What was said, written as a prompt.
pub fn build_prompt(messages: &Vec<ChatMessage>) -> (r: String)
    ensures
        r@ == prompt_text(messages@),
{
    let mut out = String::new();
    let mut i: usize = 0;
    assert(messages@.take(0) =~= Seq::<ChatMessage>::empty());
    while i < messages.len()
        invariant
            i <= messages.len(),
            out@ == prompt_text(messages@.take(i as int)),
        decreases messages.len() - i,
    {
        proof {
            assert(messages@.take(i + 1).drop_last() =~= messages@.take(i as int));
            assert(messages@.take(i + 1).last() == messages@[i as int]);
            assert(messages@.take(i + 1)[0] == messages@[0]);
        }
        let ghost before = out@;
        if i > 0 {
            out.append("\n\n");
        }
        out.append(messages[i].role.as_str());
        out.append(": ");
        out.append(messages[i].content.as_str());
        proof {
            if i == 0 {
                assert(before =~= Seq::<char>::empty());
                assert(out@ =~= messages@[0].role@ + ": "@ + messages@[0].content@);
            } else {
                assert(out@ =~= before + "\n\n"@ + messages@[i as int].role@ + ": "@
                    + messages@[i as int].content@);
            }
        }
        i = i + 1;
    }
    proof {
        messages@.lemma_take_len();
    }
    out
}

/// The prompt with what the system has to say before it, where it has
/// anything to say.
pub open spec fn with_context(context: Option<Seq<char>>, prompt: Seq<char>) -> Seq<char> {
    match context {
        Some(c) => if c.len() > 0 {
            "[System Context]\n"@ + c + "\n\n[User Message]\n"@ + prompt
        } else {
            prompt
        },
        None => prompt,
    }
}

/// The prompt with what the system has to say before it.
pub fn full_prompt(system_context: Option<&str>, prompt: &str) -> (r: String)
    ensures
        r@ == with_context(
            match system_context {
                Some(c) => Some(c@),
                None => None,
            },
            prompt@,
        ),
{
    match system_context {
        Some(c) => {
            if c.unicode_len() > 0 {
                let mut out = "[System Context]\n".to_string();
                out.append(c);
                out.append("\n\n[User Message]\n");
                out.append(prompt);
                out
            } else {
                prompt.to_string()
            }
        },
        None => prompt.to_string(),
    }
}

/// What to do with a line that the assistant printed.
#[derive(Debug)]
pub enum CliStep {
    /// Send the event on, and add the text to the answer.
    Text { sse: String, text: String },
    /// Send the event on.
    Emit { sse: String },
    /// The answer is complete.
    Done,
    /// The line says nothing to send on.
    Skip,
}

/// What to do with a line that the assistant printed, by what its texts
/// say.
pub ghost enum CliStepView {
    Text { sse: Seq<char>, text: Seq<char> },
    Emit { sse: Seq<char> },
    Done,
    Skip,
}

impl View for CliStep {
    type V = CliStepView;

    open spec fn view(&self) -> CliStepView {
        match *self {
            CliStep::Text { sse, text } => CliStepView::Text { sse: sse@, text: text@ },
            CliStep::Emit { sse } => CliStepView::Emit { sse: sse@ },
            CliStep::Done => CliStepView::Done,
            CliStep::Skip => CliStepView::Skip,
        }
    }
}

/// What to do with a line that the assistant printed. A text is sent on
/// and kept; a status is sent on with its data, or whole where it has
/// none; the use of a tool and its result are sent on whole; an error is
/// sent on with its message; `done` ends the answer; anything else is
/// passed over.
pub open spec fn step_of(line: Seq<char>) -> CliStepView {
    match json_field_of(line, "type"@) {
        JsonFieldView::Text(kind) => if kind == "text"@ {
            match json_field_of(line, "text"@) {
                JsonFieldView::Text(text) => CliStepView::Text { sse: sse_text("text"@, text), text },
                _ => CliStepView::Skip,
            }
        } else if kind == "status"@ {
            match json_member_text(line, "data"@) {
                Some(data) => CliStepView::Emit { sse: sse_text("status"@, data) },
                None => match json_compact_text(line) {
                    Some(whole) => CliStepView::Emit { sse: sse_text("status"@, whole) },
                    None => CliStepView::Skip,
                },
            }
        } else if kind == "tool_use"@ || kind == "tool_result"@ {
            match json_compact_text(line) {
                Some(whole) => CliStepView::Emit { sse: sse_text(kind, whole) },
                None => CliStepView::Skip,
            }
        } else if kind == "error"@ {
            match json_field_of(line, "error"@) {
                JsonFieldView::Text(message) => CliStepView::Emit {
                    sse: sse_text("error"@, message),
                },
                _ => CliStepView::Emit { sse: sse_text("error"@, "Unknown error"@) },
            }
        } else if kind == "done"@ {
            CliStepView::Done
        } else {
            CliStepView::Skip
        },
        _ => CliStepView::Skip,
    }
}

/// What to do with a line that the assistant printed.
pub fn stream_claude_cli(line: &str) -> (r: CliStep)
    ensures
        r@ == step_of(line@),
{
    match json_field(line, "type") {
        JsonField::Text(kind) => {
            let kind = kind.as_str();
            if str_eq(kind, "text") {
                match json_field(line, "text") {
                    JsonField::Text(text) => CliStep::Text {
                        sse: format_sse("text", text.as_str()),
                        text,
                    },
                    _ => CliStep::Skip,
                }
            } else if str_eq(kind, "status") {
                match json_member(line, "data") {
                    Some(data) => CliStep::Emit { sse: format_sse("status", data.as_str()) },
                    None => match json_compact(line) {
                        Some(whole) => CliStep::Emit { sse: format_sse("status", whole.as_str()) },
                        None => CliStep::Skip,
                    },
                }
            } else if str_eq(kind, "tool_use") || str_eq(kind, "tool_result") {
                match json_compact(line) {
                    Some(whole) => CliStep::Emit { sse: format_sse(kind, whole.as_str()) },
                    None => CliStep::Skip,
                }
            } else if str_eq(kind, "error") {
                match json_field(line, "error") {
                    JsonField::Text(message) => CliStep::Emit {
                        sse: format_sse("error", message.as_str()),
                    },
                    _ => CliStep::Emit { sse: format_sse("error", "Unknown error") },
                }
            } else if str_eq(kind, "done") {
                CliStep::Done
            } else {
                CliStep::Skip
            }
        },
        _ => CliStep::Skip,
    }
}

/// The string member of a JSON object under the first of two names that
/// the object has; nothing where it has neither, or where the member is
/// no string.
pub open spec fn first_text(text: Seq<char>, first: Seq<char>, second: Seq<char>) -> Option<
    Seq<char>,
> {
    match json_field_of(text, first) {
        JsonFieldView::Text(v) => Some(v),
        JsonFieldView::Missing => match json_field_of(text, second) {
            JsonFieldView::Text(v) => Some(v),
            _ => None,
        },
        _ => None,
    }
}

fn first_member(text: &str, first: &str, second: &str) -> (r: Option<String>)
    ensures
        match r {
            Some(v) => first_text(text@, first@, second@) == Some(v@),
            None => first_text(text@, first@, second@) is None,
        },
{
    match json_field(text, first) {
        JsonField::Text(v) => Some(v),
        JsonField::Missing => match json_field(text, second) {
            JsonField::Text(v) => Some(v),
            _ => None,
        },
        _ => None,
    }
}

/// The string member of a JSON object under a name; nothing where it has
/// none, or where the member is no string.
pub open spec fn member_text(text: Seq<char>, name: Seq<char>) -> Option<Seq<char>> {
    match json_field_of(text, name) {
        JsonFieldView::Text(v) => Some(v),
        _ => None,
    }
}

fn member(text: &str, name: &str) -> (r: Option<String>)
    ensures
        match r {
            Some(v) => member_text(text@, name@) == Some(v@),
            None => member_text(text@, name@) is None,
        },
{
    match json_field(text, name) {
        JsonField::Text(v) => Some(v),
        _ => None,
    }
}

/// The key of the service that the settings of the assistant hold, with
/// the address of the service where they hold one: the key at the top of
/// the settings, or else the one among their environment; nothing where
/// the settings are no JSON or hold no key.
pub open spec fn settings_key(settings: Seq<char>) -> Option<(Seq<char>, Option<Seq<char>>)> {
    if json_compact_text(settings) is None {
        None
    } else {
        let env = json_member_text(settings, "env"@);
        let top = first_text(settings, "api_key"@, "auth_token"@);
        let key = match top {
            Some(k) => Some(k),
            None => match env {
                Some(e) => first_text(e, "ANTHROPIC_API_KEY"@, "ANTHROPIC_AUTH_TOKEN"@),
                None => None,
            },
        };
        match key {
            Some(k) => Some(
                (
                    k,
                    match member_text(settings, "base_url"@) {
                        Some(url) => Some(url),
                        None => match env {
                            Some(e) => member_text(e, "ANTHROPIC_BASE_URL"@),
                            None => None,
                        },
                    },
                ),
            ),
            None => None,
        }
    }
}

/// What a key and an address say.
pub open spec fn key_text(key: Option<(String, Option<String>)>) -> Option<
    (Seq<char>, Option<Seq<char>>),
> {
    match key {
        Some((k, url)) => Some(
            (
                k@,
                match url {
                    Some(u) => Some(u@),
                    None => None,
                },
            ),
        ),
        None => None,
    }
}

/// What an optional string says.
pub open spec fn opt_text(s: Option<String>) -> Option<Seq<char>> {
    match s {
        Some(t) => Some(t@),
        None => None,
    }
}

/// The key of the service that the settings of the assistant hold.
pub fn key_from_settings(settings: &str) -> (r: Option<(String, Option<String>)>)
    ensures
        key_text(r) == settings_key(settings@),
{
    if json_compact(settings).is_none() {
        return None;
    }
    let env = json_member(settings, "env");
    let top = first_member(settings, "api_key", "auth_token");
    let key = match top {
        Some(k) => Some(k),
        None => match &env {
            Some(e) => first_member(e.as_str(), "ANTHROPIC_API_KEY", "ANTHROPIC_AUTH_TOKEN"),
            None => None,
        },
    };
    match key {
        Some(k) => {
            let url = match member(settings, "base_url") {
                Some(url) => Some(url),
                None => match &env {
                    Some(e) => member(e.as_str(), "ANTHROPIC_BASE_URL"),
                    None => None,
                },
            };
            Some((k, url))
        },
        None => None,
    }
}

/// The key of the service and its address: the key of the environment,
/// or else its token, each with the address of the environment; or else
/// what the settings of the assistant hold.
pub open spec fn resolved_key(
    env_key: Option<Seq<char>>,
    env_token: Option<Seq<char>>,
    env_base_url: Option<Seq<char>>,
    settings: Option<Seq<char>>,
) -> Option<(Seq<char>, Option<Seq<char>>)> {
    match env_key {
        Some(k) => Some((k, env_base_url)),
        None => match env_token {
            Some(k) => Some((k, env_base_url)),
            None => match settings {
                Some(s) => settings_key(s),
                None => None,
            },
        },
    }
}

/// The key of the service and its address, given what the environment
/// holds and what the settings of the assistant say.
pub fn resolve_api_key(
    env_key: Option<String>,
    env_token: Option<String>,
    env_base_url: Option<String>,
    settings: Option<&str>,
) -> (r: Option<(String, Option<String>)>)
    ensures
        key_text(r) == resolved_key(
            opt_text(env_key),
            opt_text(env_token),
            opt_text(env_base_url),
            match settings {
                Some(s) => Some(s@),
                None => None,
            },
        ),
{
    match env_key {
        Some(k) => Some((k, env_base_url)),
        None => match env_token {
            Some(k) => Some((k, env_base_url)),
            None => match settings {
                Some(s) => key_from_settings(s),
                None => None,
            },
        },
    }
}

/// What a request to the chat server asks for.
#[derive(Clone, Copy, Debug, PartialEq, Eq, Structural)]
pub enum ChatRoute {
    /// Leave to ask from another origin.
    Preflight,
    /// What was said in a session.
    Messages,
    /// An answer to a message.
    Chat,
    /// Nothing that the server knows.
    NotFound,
}

/// The path of an address: the part before its first question mark.
pub open spec fn path_of(url: Seq<char>) -> Seq<char> {
    match split_once_text(url, "?"@) {
        Some((path, _)) => path,
        None => url,
    }
}

/// What a request asks for, given its method and address.
pub open spec fn chat_route_of(method: Seq<char>, url: Seq<char>) -> ChatRoute {
    if method == "OPTIONS"@ {
        ChatRoute::Preflight
    } else if method == "GET"@ {
        if path_of(url) == "/api/chat/messages"@ {
            ChatRoute::Messages
        } else {
            ChatRoute::NotFound
        }
    } else if method == "POST"@ && path_of(url) == "/api/chat"@ {
        ChatRoute::Chat
    } else {
        ChatRoute::NotFound
    }
}

/// What a request to the chat server asks for.
pub fn start_chat_server(method: &str, url: &str) -> (r: ChatRoute)
    ensures
        r == chat_route_of(method@, url@),
{
    let path = match split_once(url, "?") {
        Some((path, _)) => path,
        None => url.to_string(),
    };
    if str_eq(method, "OPTIONS") {
        ChatRoute::Preflight
    } else if str_eq(method, "GET") {
        if str_eq(path.as_str(), "/api/chat/messages") {
            ChatRoute::Messages
        } else {
            ChatRoute::NotFound
        }
    } else if str_eq(method, "POST") && str_eq(path.as_str(), "/api/chat") {
        ChatRoute::Chat
    } else {
        ChatRoute::NotFound
    }
}

/// The value that the pairs of a query give a key: that of the last pair
/// with the key, where a pair is a part with an equals sign in it.
pub open spec fn last_value(parts: Seq<Seq<char>>, key: Seq<char>) -> Option<Seq<char>>
    decreases parts.len(),
{
    if parts.len() == 0 {
        None
    } else {
        match split_once_text(parts.last(), "="@) {
            Some((k, v)) => if k == key {
                Some(v)
            } else {
                last_value(parts.drop_last(), key)
            },
            None => last_value(parts.drop_last(), key),
        }
    }
}

/// The session that an address asks for: the value of `session_id` in
/// its query, which lies between its first and its second question mark,
/// unless it is empty.
pub open spec fn session_of(url: Seq<char>) -> Option<Seq<char>> {
    let parts = split_text(url, '?');
    if parts.len() < 2 {
        None
    } else {
        match last_value(split_text(parts[1], '&'), "session_id"@) {
            Some(v) => if v.len() > 0 {
                Some(v)
            } else {
                None
            },
            None => None,
        }
    }
}

/// The session that an address asks for.
pub fn handle_get_messages_request(url: &str) -> (r: Option<String>)
    ensures
        opt_text(r) == session_of(url@),
{
    let parts = split_on(url, '?');
    if parts.len() < 2 {
        return None;
    }
    assert(texts(parts@)[1] == parts@[1]@);
    let pairs = split_on(parts[1].as_str(), '&');
    let ghost all = texts(pairs@);
    let mut i: usize = pairs.len();
    assert(all.take(pairs@.len() as int) =~= all);
    while i > 0
        invariant
            i <= pairs.len(),
            all == texts(pairs@),
            parts@.len() >= 2,
            texts(parts@) == split_text(url@, '?'),
            all == split_text(texts(parts@)[1], '&'),
            last_value(all, "session_id"@) == last_value(all.take(i as int), "session_id"@),
        decreases i,
    {
        proof {
            assert(all.take(i as int).last() == pairs@[i - 1]@);
            assert(all.take(i as int).drop_last() =~= all.take(i - 1));
        }
        match split_once(pairs[i - 1].as_str(), "=") {
            Some((k, v)) => {
                if str_eq(k.as_str(), "session_id") {
                    return if v.as_str().unicode_len() > 0 {
                        Some(v)
                    } else {
                        None
                    };
                }
            },
            None => {},
        }
        i = i - 1;
    }
    None
}

/// An answer of the chat server.
#[derive(Debug)]
pub struct ChatReply {
    pub status: u16,
    pub content_type: String,
    pub body: String,
}

/// What an answer of the chat server says.
pub ghost struct ChatReplyView {
    pub status: u16,
    pub content_type: Seq<char>,
    pub body: Seq<char>,
}

impl View for ChatReply {
    type V = ChatReplyView;

    open spec fn view(&self) -> ChatReplyView {
        ChatReplyView { status: self.status, content_type: self.content_type@, body: self.body@ }
    }
}

/// The answer that tells of a problem, as JSON.
pub open spec fn problem_reply(status: u16, problem: Seq<char>) -> ChatReplyView {
    ChatReplyView {
        status,
        content_type: "application/json"@,
        body: "{\"error\": \""@ + problem + "\"}"@,
    }
}

/// The answer that tells of a problem, as JSON.
pub fn problem(status: u16, what: &str) -> (r: ChatReply)
    ensures
        r@ == problem_reply(status, what@),
{
    let mut body = "{\"error\": \"".to_string();
    body.append(what);
    body.append("\"}");
    ChatReply { status, content_type: "application/json".to_string(), body }
}

/// The answer that tells of a failure of the service as a stream of two
/// events: the error, and the end.
pub open spec fn failure_stream(problem: Seq<char>) -> ChatReplyView {
    ChatReplyView {
        status: 200,
        content_type: "text/event-stream"@,
        body: sse_text("error"@, problem) + sse_text("done"@, Seq::empty()),
    }
}

/// What the chat server does about a message.
#[derive(Debug)]
pub enum ChatStart {
    /// Answer at once.
    Refuse(ChatReply),
    /// Ask the assistant, with what was said in the session so far, and
    /// with the key and the address of the service at hand.
    Ask { messages: Vec<ChatMessage>, model: String, api_key: String, base_url: Option<String> },
}

/// What is said where no key is found, given where the settings of the
/// assistant lie.
pub open spec fn no_key_message(settings_path: Seq<char>) -> Seq<char> {
    "Anthropic API key not configured. Set ANTHROPIC_API_KEY environment variable or configure "@
        + settings_path
}

/// What the chat server does about a message: it refuses one without a
/// session or without content, and one for which no key is found; else
/// the message joins what was said in its session, and the assistant is
/// asked under the model named, or under the usual one.
pub fn handle_chat_request(
    store: &mut SessionStore,
    session_id: &str,
    content: &str,
    model: Option<String>,
    key: Option<(String, Option<String>)>,
    usual_model: &str,
    settings_path: &str,
) -> (r: ChatStart)
    requires
        old(store).wf(),
    ensures
        final(store).wf(),
        if session_id@.len() == 0 || content@.len() == 0 {
            &&& r matches ChatStart::Refuse(reply)
            &&& reply@ == problem_reply(400, "Missing session_id or content"@)
            &&& final(store).sessions() == old(store).sessions()
        } else if key is None {
            &&& r matches ChatStart::Refuse(reply)
            &&& reply@ == problem_reply(500, no_key_message(settings_path@))
            &&& final(store).sessions() == old(store).sessions()
        } else {
            &&& r matches ChatStart::Ask { messages, model: asked, api_key, base_url }
            &&& messages@ == final(store).messages(session_id@)
            &&& messages@.drop_last() == old(store).messages(session_id@)
            &&& messages@.len() == old(store).messages(session_id@).len() + 1
            &&& messages@.last().role@ == "user"@
            &&& messages@.last().content@ == content@
            &&& asked@ == match model {
                Some(m) => m@,
                None => usual_model@,
            }
            &&& Some((api_key, base_url)) == key
        },
{
    if session_id.unicode_len() == 0 || content.unicode_len() == 0 {
        return ChatStart::Refuse(problem(400, "Missing session_id or content"));
    }
    let (api_key, base_url) = match key {
        Some(pair) => pair,
        None => {
            let mut message =
                "Anthropic API key not configured. Set ANTHROPIC_API_KEY environment variable or configure ".to_string();
            message.append(settings_path);
            return ChatStart::Refuse(problem(500, message.as_str()));
        },
    };
    store.add_message(session_id, "user", content);
    let messages = store.get_messages(session_id);
    let model = match model {
        Some(m) => m,
        None => usual_model.to_string(),
    };
    ChatStart::Ask { messages, model, api_key, base_url }
}

/// The answer that tells of a failure of the service as a stream.
pub fn failure_reply(what: &str) -> (r: ChatReply)
    ensures
        r@ == failure_stream(what@),
{
    let mut body = format_sse("error", what);
    body.append(format_sse("done", "").as_str());
    proof {
        reveal_strlit("");
        assert(""@ =~= Seq::<char>::empty());
    }
    ChatReply { status: 200, content_type: "text/event-stream".to_string(), body }
}

/// What to do with a line that the assistant printed when it was asked a
/// single question. A text is sent on and kept; a status is sent on with
/// its data, or whole where it has none; an error is sent on with its
/// message; `done` ends the answer. A line that is no JSON is sent on
/// and kept as a text with a line feed after it, unless it is blank.
pub open spec fn asked_step_of(line: Seq<char>) -> CliStepView {
    match json_compact_text(line) {
        None => if trimmed(line).len() > 0 {
            CliStepView::Text { sse: sse_text("text"@, line), text: line + "\n"@ }
        } else {
            CliStepView::Skip
        },
        Some(whole) => match json_field_of(line, "type"@) {
            JsonFieldView::Text(kind) => if kind == "text"@ {
                match json_field_of(line, "text"@) {
                    JsonFieldView::Text(text) => CliStepView::Text {
                        sse: sse_text("text"@, text),
                        text,
                    },
                    _ => CliStepView::Skip,
                }
            } else if kind == "status"@ {
                match json_member_text(line, "data"@) {
                    Some(data) => CliStepView::Emit { sse: sse_text("status"@, data) },
                    None => CliStepView::Emit { sse: sse_text("status"@, whole) },
                }
            } else if kind == "error"@ {
                match json_field_of(line, "error"@) {
                    JsonFieldView::Text(message) => CliStepView::Emit {
                        sse: sse_text("error"@, message),
                    },
                    _ => CliStepView::Emit { sse: sse_text("error"@, "Unknown error"@) },
                }
            } else if kind == "done"@ {
                CliStepView::Done
            } else {
                CliStepView::Skip
            },
            _ => CliStepView::Skip,
        },
    }
}

/// What to do with a line that the assistant printed when it was asked a
/// single question.
pub fn stream_claude_response_via_cli(line: &str) -> (r: CliStep)
    ensures
        r@ == asked_step_of(line@),
{
    let whole = match json_compact(line) {
        None => {
            return if trim(line).as_str().unicode_len() > 0 {
                let mut text = line.to_string();
                text.append("\n");
                CliStep::Text { sse: format_sse("text", line), text }
            } else {
                CliStep::Skip
            };
        },
        Some(whole) => whole,
    };
    match json_field(line, "type") {
        JsonField::Text(kind) => {
            let kind = kind.as_str();
            if str_eq(kind, "text") {
                match json_field(line, "text") {
                    JsonField::Text(text) => CliStep::Text {
                        sse: format_sse("text", text.as_str()),
                        text,
                    },
                    _ => CliStep::Skip,
                }
            } else if str_eq(kind, "status") {
                match json_member(line, "data") {
                    Some(data) => CliStep::Emit { sse: format_sse("status", data.as_str()) },
                    None => CliStep::Emit { sse: format_sse("status", whole.as_str()) },
                }
            } else if str_eq(kind, "error") {
                match json_field(line, "error") {
                    JsonField::Text(message) => CliStep::Emit {
                        sse: format_sse("error", message.as_str()),
                    },
                    _ => CliStep::Emit { sse: format_sse("error", "Unknown error") },
                }
            } else if str_eq(kind, "done") {
                CliStep::Done
            } else {
                CliStep::Skip
            }
        },
        _ => CliStep::Skip,
    }
}

/// The status that tells which model answers.
pub open spec fn model_status(model: Seq<char>) -> Seq<char> {
    "{\"model\":"@ + json_quoted(model) + ",\"session_id\":\"rust-native\"}"@
}

/// The string member of a member of a JSON object; nothing where one of
/// the two is missing, or where the inner one is no string.
pub open spec fn inner_text(text: Seq<char>, outer: Seq<char>, inner: Seq<char>) -> Option<
    Seq<char>,
> {
    match json_member_text(text, outer) {
        Some(m) => member_text(m, inner),
        None => None,
    }
}

fn inner_member(text: &str, outer: &str, inner: &str) -> (r: Option<String>)
    ensures
        opt_text(r) == inner_text(text@, outer@, inner@),
{
    match json_member(text, outer) {
        Some(m) => member(m.as_str(), inner),
        None => None,
    }
}

/// What to do with the data of an event of the service.
pub open spec fn data_step_of(data: Seq<char>) -> CliStepView {
    if data == "[DONE]"@ {
        CliStepView::Done
    } else {
        match json_field_of(data, "type"@) {
            JsonFieldView::Text(kind) => if kind == "content_block_delta"@ {
                match inner_text(data, "delta"@, "text"@) {
                    Some(text) => CliStepView::Text { sse: sse_text("text"@, text), text },
                    None => CliStepView::Skip,
                }
            } else if kind == "message_start"@ {
                match json_member_text(data, "message"@) {
                    Some(message) => CliStepView::Emit {
                        sse: sse_text(
                            "status"@,
                            model_status(
                                match member_text(message, "model"@) {
                                    Some(m) => m,
                                    None => "unknown"@,
                                },
                            ),
                        ),
                    },
                    None => CliStepView::Skip,
                }
            } else if kind == "message_delta"@ {
                match json_member_text(data, "usage"@) {
                    Some(usage) => CliStepView::Emit { sse: sse_text("usage"@, usage) },
                    None => CliStepView::Skip,
                }
            } else if kind == "error"@ {
                CliStepView::Emit {
                    sse: sse_text(
                        "error"@,
                        match inner_text(data, "error"@, "message"@) {
                            Some(m) => m,
                            None => "Unknown API error"@,
                        },
                    ),
                }
            } else {
                CliStepView::Skip
            },
            _ => CliStepView::Skip,
        }
    }
}

/// What to do with a line that the service sent: a line of data is an
/// event of the service, and any other line is passed over. The text of
/// an answer is sent on and kept; the beginning of a message is sent on
/// as a status that names the model; the usage is sent on; an error is
/// sent on with its message; `[DONE]` ends the answer.
pub open spec fn api_step_of(line: Seq<char>) -> CliStepView {
    if "data: "@.is_prefix_of(line) {
        data_step_of(line.skip(6))
    } else {
        CliStepView::Skip
    }
}

/// What to do with a line that the service sent.
pub fn stream_anthropic_response(line: &str) -> (r: CliStep)
    ensures
        r@ == api_step_of(line@),
{
    if !str_starts_with(line, "data: ") {
        return CliStep::Skip;
    }
    proof {
        reveal_strlit("data: ");
    }
    let n = line.unicode_len();
    let data = line.substring_char(6, n);
    assert(data@ =~= line@.skip(6));
    if str_eq(data, "[DONE]") {
        return CliStep::Done;
    }
    match json_field(data, "type") {
        JsonField::Text(kind) => {
            let kind = kind.as_str();
            if str_eq(kind, "content_block_delta") {
                match inner_member(data, "delta", "text") {
                    Some(text) => CliStep::Text { sse: format_sse("text", text.as_str()), text },
                    None => CliStep::Skip,
                }
            } else if str_eq(kind, "message_start") {
                match json_member(data, "message") {
                    Some(message) => {
                        let model = match member(message.as_str(), "model") {
                            Some(m) => m,
                            None => "unknown".to_string(),
                        };
                        let mut status = "{\"model\":".to_string();
                        status.append(json_quote(model.as_str()).as_str());
                        status.append(",\"session_id\":\"rust-native\"}");
                        CliStep::Emit { sse: format_sse("status", status.as_str()) }
                    },
                    None => CliStep::Skip,
                }
            } else if str_eq(kind, "message_delta") {
                match json_member(data, "usage") {
                    Some(usage) => CliStep::Emit { sse: format_sse("usage", usage.as_str()) },
                    None => CliStep::Skip,
                }
            } else if str_eq(kind, "error") {
                let message = match inner_member(data, "error", "message") {
                    Some(m) => m,
                    None => "Unknown API error".to_string(),
                };
                CliStep::Emit { sse: format_sse("error", message.as_str()) }
            } else {
                CliStep::Skip
            }
        },
        _ => CliStep::Skip,
    }
}

/// The first thing that the system said in a session, if it said
/// anything.
pub open spec fn system_prompt(messages: Seq<ChatMessage>) -> Option<Seq<char>>
    decreases messages.len(),
{
    if messages.len() == 0 {
        None
    } else if messages[0].role@ == "system"@ {
        Some(messages[0].content@)
    } else {
        system_prompt(messages.drop_first())
    }
}

/// What the system has to say to the service: the context before what it
/// said in the session, or the one of the two that there is.
pub open spec fn merged_system(messages: Seq<ChatMessage>, context: Option<Seq<char>>) -> Option<
    Seq<char>,
> {
    let given = match context {
        Some(c) => if c.len() > 0 {
            Some(c)
        } else {
            None
        },
        None => None,
    };
    match (system_prompt(messages), given) {
        (Some(existing), Some(c)) => Some(c + "\n\n"@ + existing),
        (Some(existing), None) => Some(existing),
        (None, Some(c)) => Some(c),
        (None, None) => None,
    }
}

/// What the system has to say to the service.
pub fn system_text(messages: &Vec<ChatMessage>, system_context: Option<&str>) -> (r: Option<String>)
    ensures
        opt_text(r) == merged_system(
            messages@,
            match system_context {
                Some(c) => Some(c@),
                None => None,
            },
        ),
{
    let mut existing: Option<String> = None;
    let mut i: usize = 0;
    assert(messages@.skip(0) =~= messages@);
    while i < messages.len() && existing.is_none()
        invariant
            i <= messages.len(),
            match existing {
                Some(e) => system_prompt(messages@) == Some(e@),
                None => system_prompt(messages@) == system_prompt(messages@.skip(i as int)),
            },
        decreases messages.len() - i,
    {
        proof {
            assert(messages@.skip(i as int)[0] == messages@[i as int]);
            assert(messages@.skip(i as int).drop_first() =~= messages@.skip(i + 1));
        }
        if str_eq(messages[i].role.as_str(), "system") {
            existing = Some(messages[i].content.clone());
        }
        i = i + 1;
    }
    proof {
        if existing is None {
            assert(messages@.skip(i as int).len() == 0);
        }
    }
    let given = match system_context {
        Some(c) => if c.unicode_len() > 0 {
            Some(c)
        } else {
            None
        },
        None => None,
    };
    match (existing, given) {
        (Some(e), Some(c)) => {
            let mut out = c.to_string();
            out.append("\n\n");
            out.append(e.as_str());
            Some(out)
        },
        (Some(e), None) => Some(e),
        (None, Some(c)) => Some(c.to_string()),
        (None, None) => None,
    }
}

/// The address at which the service takes messages.
pub fn messages_url(base_url: Option<&str>) -> (r: String)
    ensures
        r@ == (match base_url {
            Some(b) => b@,
            None => "https://api.anthropic.com"@,
        }) + "/v1/messages"@,
{
    let mut url = match base_url {
        Some(b) => b.to_string(),
        None => "https://api.anthropic.com".to_string(),
    };
    url.append("/v1/messages");
    url
}

} // verus!
