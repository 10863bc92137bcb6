//! The command-line assistant: where to look for it, how to call it, and
//! how to read what it prints.
//!
//! Nothing here runs a program. Whoever does hands over the home
//! directory and the name of the program, and the lines that it printed.

use vstd::prelude::*;
use crate::distinct::texts;
use crate::json_text::{json_field, json_field_of, json_quote, json_quoted, JsonField, JsonFieldView};

verus! {

/// An event of the assistant, to be sent on as a server-sent event.
#[derive(Debug)]
pub struct ClaudeSSEEvent {
    pub event_type: String,
    pub data: String,
}

impl Clone for ClaudeSSEEvent {
    fn clone(&self) -> (r: Self)
        ensures
            r == *self,
    {
        ClaudeSSEEvent { event_type: self.event_type.clone(), data: self.data.clone() }
    }
}

/// What an event says.
pub ghost struct EventText {
    pub event_type: Seq<char>,
    pub data: Seq<char>,
}

/// What the line of output states: an event where the line is a JSON
/// object whose type is a string and which has data; data that is no
/// string counts as empty.
pub open spec fn output_event(line: Seq<char>) -> Option<EventText> {
    match json_field_of(line, "type"@) {
        JsonFieldView::Text(event_type) => match json_field_of(line, "data"@) {
            JsonFieldView::Text(data) => Some(EventText { event_type, data }),
            JsonFieldView::NotText => Some(EventText { event_type, data: Seq::empty() }),
            _ => None,
        },
        _ => None,
    }
}

/// The event that a line of output states, if it states one.
pub fn parse_claude_output(line: &str) -> (r: Option<ClaudeSSEEvent>)
    ensures
        match r {
            Some(e) => output_event(line@) == Some(
                EventText { event_type: e.event_type@, data: e.data@ },
            ),
            None => output_event(line@) is None,
        },
{
    match json_field(line, "type") {
        JsonField::Text(event_type) => match json_field(line, "data") {
            JsonField::Text(data) => Some(ClaudeSSEEvent { event_type, data }),
            JsonField::NotText => Some(ClaudeSSEEvent { event_type, data: String::new() }),
            _ => None,
        },
        _ => None,
    }
}

/// The line by which an event is sent on: its data and its type as a
/// JSON object after `data: `, and an empty line.
pub open spec fn sse_line(event_type: Seq<char>, data: Seq<char>) -> Seq<char> {
    "data: {\"data\":"@ + json_quoted(data) + ",\"type\":"@ + json_quoted(event_type) + "}\n\n"@
}

impl ClaudeSSEEvent {
    /// The line by which the event is sent on.
    pub fn to_sse(&self) -> (r: String)
        ensures
            r@ == sse_line(self.event_type@, self.data@),
    {
        let mut line = "data: {\"data\":".to_string();
        line.append(json_quote(self.data.as_str()).as_str());
        line.append(",\"type\":");
        line.append(json_quote(self.event_type.as_str()).as_str());
        line.append("}\n\n");
        line
    }
}

/// The path of a program in a directory of another.
pub open spec fn in_bin(base: Seq<char>, program: Seq<char>) -> Seq<char> {
    base + "/bin/"@ + program
}

/// The places at which a program is looked for, in order: three below the
/// home directory, the last of them in the directory that the program
/// keeps under its own name, and three of the system.
pub open spec fn common_paths(home: Seq<char>, program: Seq<char>) -> Seq<Seq<char>> {
    seq![
        in_bin(home + "/.npm-global"@, program),
        in_bin(home + "/.local"@, program),
        in_bin(home + "/."@ + program, program),
        in_bin("/usr/local"@, program),
        in_bin("/opt/homebrew"@, program),
        in_bin("/usr"@, program),
    ]
}

fn bin_path(base: &str, program: &str) -> (r: String)
    ensures
        r@ == in_bin(base@, program@),
{
    let mut path = base.to_string();
    path.append("/bin/");
    path.append(program);
    path
}

/// The places at which a program is looked for, in order.
pub fn candidate_paths(home: &str, program: &str) -> (r: Vec<String>)
    ensures
        texts(r@) == common_paths(home@, program@),
{
    let mut out: Vec<String> = Vec::new();
    let mut npm = home.to_string();
    npm.append("/.npm-global");
    out.push(bin_path(npm.as_str(), program));
    let mut local = home.to_string();
    local.append("/.local");
    out.push(bin_path(local.as_str(), program));
    let mut own = home.to_string();
    own.append("/.");
    own.append(program);
    out.push(bin_path(own.as_str(), program));
    out.push(bin_path("/usr/local", program));
    out.push(bin_path("/opt/homebrew", program));
    out.push(bin_path("/usr", program));
    assert(texts(out@) =~= common_paths(home@, program@));
    out
}

/// The first of the places at which an executable lies, given for each
/// place whether one lies there.
pub fn find_claude_cli(candidates: &Vec<String>, executable: &Vec<bool>) -> (r: Option<String>)
    ensures
        match r {
            Some(path) => exists|i: int|
                0 <= i < candidates@.len() && i < executable@.len() && executable@[i]
                    && #[trigger] candidates@[i] == path && forall|k: int|
                    0 <= k < i ==> !(#[trigger] executable@[k]),
            None => forall|k: int|
                0 <= k < candidates@.len() && k < executable@.len() ==> !(#[trigger] executable@[k]),
        },
{
    let mut i: usize = 0;
    while i < candidates.len() && i < executable.len()
        invariant
            forall|k: int| 0 <= k < i ==> !(#[trigger] executable@[k]),
            i <= candidates.len(),
            i <= executable.len(),
        decreases candidates.len() - i,
    {
        if executable[i] {
            let path = candidates[i].clone();
            assert(candidates@[i as int] == path);
            return Some(path);
        }
        i = i + 1;
    }
    None
}

/// The arguments with which the assistant is asked: the question as
/// JSON, and the model where one is named.
pub open spec fn ask_arguments(prompt: Seq<char>, model: Option<Seq<char>>) -> Seq<Seq<char>> {
    match model {
        Some(m) => seq!["ask"@, "--json"@, prompt, "--model"@, m],
        None => seq!["ask"@, "--json"@, prompt],
    }
}

/// The arguments with which the assistant is asked.
pub fn stream_claude_response(prompt: &str, model: Option<&str>) -> (r: Vec<String>)
    ensures
        texts(r@) == ask_arguments(
            prompt@,
            match model {
                Some(m) => Some(m@),
                None => None,
            },
        ),
{
    let mut args: Vec<String> = Vec::new();
    args.push("ask".to_string());
    args.push("--json".to_string());
    args.push(prompt.to_string());
    match model {
        Some(m) => {
            args.push("--model".to_string());
            args.push(m.to_string());
            assert(texts(args@) =~= seq!["ask"@, "--json"@, prompt@, "--model"@, m@]);
        },
        None => {
            assert(texts(args@) =~= seq!["ask"@, "--json"@, prompt@]);
        },
    }
    args
}

} // verus!
