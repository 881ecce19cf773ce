//! The MCP server's decisions: how each JSON-RPC request is answered.
//!
//! The server reads one request per line. Blank lines are skipped
//! (`text::is_blank`); a line that is not a valid request is answered with a
//! parse error; otherwise the request's method decides the answer
//! (`on_request`). A `tools/call` request names a tool: `recap_last`,
//! `recap_list` or `recap_get`; the tool is planned (`plan_tool_call`), the
//! index is read by the caller and handed back (`after_index_read`), and where
//! a run's log is needed it is read and handed back too (`after_log_read`).

use vstd::prelude::*;
use vstd::string::StringExecFns;
use crate::storage::{last_run, last_runs, run_with_id, RunEntry, Storage};
use crate::text::{decimal, decimal_string, same_text};

verus! {

/// A JSON-RPC error: its code and message.
#[derive(Debug)]
pub struct RpcError {
    pub code: i64,
    pub message: String,
}

/// A tool to run against the history.
#[derive(Clone, Copy, Debug, PartialEq, Eq, Structural)]
pub enum ToolCall {
    /// `recap_last`: the last run, with its output.
    Last,
    /// `recap_list`: the last `limit` runs, newest first.
    List { limit: usize },
    /// `recap_get`: the run with this id, with its output.
    Get { id: u64 },
}

/// The text content that a tool answers with.
#[derive(Debug)]
pub enum ToolText {
    /// One run and its output, shown as a JSON object with the fields `id`,
    /// `cmd`, `exit`, `at` and `output`.
    Run { entry: RunEntry, output: String },
    /// Runs, newest first, shown as a JSON object `{"runs": [...]}` whose
    /// items have the fields `id`, `cmd`, `exit` and `at`.
    Runs(Vec<RunEntry>),
    /// A message shown as it is.
    Plain(String),
}

/// The result of a successful request.
#[derive(Debug)]
pub enum RpcResult {
    /// The answer to `initialize`: the protocol version, the capabilities and
    /// the server's name and version.
    ServerInfo,
    /// The answer to `tools/list`: the three tools and their input schemas.
    ToolList,
    /// The answer to `tools/call`: one text content item.
    Content(ToolText),
}

/// A response: a result, or an error.
#[derive(Debug)]
pub enum RpcReply {
    Success(RpcResult),
    Failure(RpcError),
}

/// What to do with a request.
#[derive(Debug)]
pub enum RequestAction {
    /// Nothing: no response is written (a notification).
    Ignore,
    /// Write this response.
    Reply(RpcReply),
    /// Run this tool; the index is needed.
    Call(ToolCall),
}

/// What to do once the index has been read.
#[derive(Debug)]
pub enum ToolStep {
    /// Write this response.
    Reply(RpcReply),
    /// Read the log of this run, then answer with the run and its log.
    ReadLog(RunEntry),
}

/// `reply` is an error with this code and message.
pub open spec fn is_failure(reply: RpcReply, code: int, message: Seq<char>) -> bool {
    reply matches RpcReply::Failure(e) && e.code == code && e.message@ == message
}

/// `reply` is a tool's answer with the plain text `text`.
pub open spec fn is_plain(reply: RpcReply, text: Seq<char>) -> bool {
    reply matches RpcReply::Success(RpcResult::Content(ToolText::Plain(t))) && t@ == text
}

/// A tool's name as the request gives it; no name counts as the empty name.
pub open spec fn name_of(name: Option<&str>) -> Seq<char> {
    match name {
        Some(n) => n@,
        None => Seq::empty(),
    }
}

/// The tool that a `tools/call` request asks for, given the tool's name and
/// the `limit` and `id` arguments where they are unsigned integers; `None`
/// when the request is refused. `recap_list` lists 10 runs when no limit is
/// given.
pub open spec fn planned_call(name: Seq<char>, limit: Option<u64>, id: Option<u64>) -> Option<ToolCall> {
    if name == "recap_last"@ {
        Some(ToolCall::Last)
    } else if name == "recap_list"@ {
        Some(
            ToolCall::List {
                limit: (match limit {
                    Some(l) => l,
                    None => 10u64,
                }) as usize,
            },
        )
    } else if name == "recap_get"@ {
        match id {
            Some(i) => Some(ToolCall::Get { id: i }),
            None => None,
        }
    } else {
        None
    }
}

/// The message with which a `tools/call` request is refused.
pub open spec fn refusal_message(name: Seq<char>) -> Seq<char> {
    if name == "recap_get"@ {
        "Missing required parameter: id"@
    } else {
        "Unknown tool: "@ + name
    }
}

/// The error code of an invalid method parameter.
pub open spec fn invalid_params_code() -> int {
    -32602
}

/// The error code of a failure to read the history.
pub open spec fn storage_error_code() -> int {
    -32000
}

proof fn lemma_method_names_distinct()
    ensures
        "initialize"@ != "notifications/initialized"@,
        "initialize"@ != "tools/list"@,
        "initialize"@ != "tools/call"@,
        "notifications/initialized"@ != "tools/list"@,
        "notifications/initialized"@ != "tools/call"@,
        "tools/list"@ != "tools/call"@,
{
    reveal_strlit("initialize");
    reveal_strlit("notifications/initialized");
    reveal_strlit("tools/list");
    reveal_strlit("tools/call");
    assert("initialize"@.len() == 10);
    assert("notifications/initialized"@.len() == 25);
    assert("tools/list"@.len() == 10);
    assert("tools/call"@.len() == 10);
    assert("initialize"@[0] != "tools/list"@[0]);
    assert("initialize"@[0] != "tools/call"@[0]);
    assert("tools/list"@[6] != "tools/call"@[6]);
}

proof fn lemma_tool_names_distinct()
    ensures
        "recap_last"@ != "recap_list"@,
        "recap_last"@ != "recap_get"@,
        "recap_list"@ != "recap_get"@,
        ""@ == Seq::<char>::empty(),
{
    reveal_strlit("");
    assert(""@.len() == 0);
    assert(""@ =~= Seq::<char>::empty());
    reveal_strlit("recap_last");
    reveal_strlit("recap_list");
    reveal_strlit("recap_get");
    assert("recap_last"@.len() == 10);
    assert("recap_list"@.len() == 10);
    assert("recap_get"@.len() == 9);
    assert("recap_last"@[7] != "recap_list"@[7]);
}

/// The answer to a line that is not a valid request: error -32700 with the
/// message `Parse error: ` and the parser's description of the fault.
pub fn parse_error(detail: &str) -> (r: RpcReply)
    ensures
        is_failure(r, -32700, "Parse error: "@ + detail@),
{
    let mut message = "Parse error: ".to_owned();
    message.append(detail);
    RpcReply::Failure(RpcError { code: -32700, message })
}

/// Plans a `tools/call` request for the tool `name` with the arguments
/// `limit` and `id` (each present where the request holds it as an unsigned
/// integer); refuses it with error -32602 when the tool is unknown or
/// `recap_get` has no id.
pub fn plan_tool_call(name: Option<&str>, limit: Option<u64>, id: Option<u64>) -> (r: Result<ToolCall, RpcError>)
    ensures
        match r {
            Ok(call) => planned_call(name_of(name), limit, id) == Some(call),
            Err(e) => {
                &&& planned_call(name_of(name), limit, id) is None
                &&& e.code == invalid_params_code()
                &&& e.message@ == refusal_message(name_of(name))
            },
        },
{
    proof {
        lemma_tool_names_distinct();
    }
    let n: &str = match name {
        Some(n) => n,
        None => "",
    };
    if same_text(n, "recap_last") {
        Ok(ToolCall::Last)
    } else if same_text(n, "recap_list") {
        let l: u64 = match limit {
            Some(l) => l,
            None => 10,
        };
        Ok(ToolCall::List { limit: l as usize })
    } else if same_text(n, "recap_get") {
        match id {
            Some(i) => Ok(ToolCall::Get { id: i }),
            None => Err(
                RpcError { code: -32602, message: "Missing required parameter: id".to_owned() },
            ),
        }
    } else {
        let mut message = "Unknown tool: ".to_owned();
        message.append(n);
        Err(RpcError { code: -32602, message })
    }
}

/// Decides what to do with a request for `method`: `initialize` and
/// `tools/list` are answered at once, `notifications/initialized` gets no
/// response, `tools/call` is planned from `tool`, `limit` and `id` as
/// `plan_tool_call` does (a refused call is answered with its error), and any
/// other method is answered with error -32601, `Method not found`.
pub fn on_request(method: &str, tool: Option<&str>, limit: Option<u64>, id: Option<u64>) -> (r: RequestAction)
    ensures
        method@ == "initialize"@ ==> r == RequestAction::Reply(RpcReply::Success(RpcResult::ServerInfo)),
        method@ == "notifications/initialized"@ ==> r is Ignore,
        method@ == "tools/list"@ ==> r == RequestAction::Reply(RpcReply::Success(RpcResult::ToolList)),
        method@ == "tools/call"@ ==> match planned_call(name_of(tool), limit, id) {
            Some(call) => r == RequestAction::Call(call),
            None => (r matches RequestAction::Reply(reply) && is_failure(
                reply,
                invalid_params_code(),
                refusal_message(name_of(tool)),
            )),
        },
        method@ != "initialize"@ && method@ != "notifications/initialized"@ && method@
            != "tools/list"@ && method@ != "tools/call"@ ==> (r matches RequestAction::Reply(reply)
            && is_failure(reply, -32601, "Method not found"@)),
{
    proof {
        lemma_method_names_distinct();
    }
    if same_text(method, "initialize") {
        RequestAction::Reply(RpcReply::Success(RpcResult::ServerInfo))
    } else if same_text(method, "notifications/initialized") {
        RequestAction::Ignore
    } else if same_text(method, "tools/list") {
        RequestAction::Reply(RpcReply::Success(RpcResult::ToolList))
    } else if same_text(method, "tools/call") {
        match plan_tool_call(tool, limit, id) {
            Ok(call) => RequestAction::Call(call),
            Err(e) => RequestAction::Reply(RpcReply::Failure(e)),
        }
    } else {
        RequestAction::Reply(
            RpcReply::Failure(RpcError { code: -32601, message: "Method not found".to_owned() }),
        )
    }
}

/// Continues the tool `call` once the index has been read: `index` holds the
/// recorded runs, or the description of the fault that kept them from being
/// read, which is answered with error -32000 `Storage error: ...`.
/// `recap_last` and `recap_get` go on to read the log of the run they found,
/// or answer that there is none; `recap_list` answers with the last `limit`
/// runs, newest first.
pub fn after_index_read(call: ToolCall, index: Result<Vec<RunEntry>, String>) -> (r: ToolStep)
    ensures
        match index {
            Err(fault) => r matches ToolStep::Reply(reply) && is_failure(
                reply,
                storage_error_code(),
                "Storage error: "@ + fault@,
            ),
            Ok(entries) => match call {
                ToolCall::Last => match last_run(entries@) {
                    Some(e) => r == ToolStep::ReadLog(e),
                    None => r matches ToolStep::Reply(reply) && is_plain(
                        reply,
                        "No runs recorded yet."@,
                    ),
                },
                ToolCall::List { limit } => r matches ToolStep::Reply(
                    RpcReply::Success(RpcResult::Content(ToolText::Runs(runs))),
                ) && runs@ == last_runs(entries@, limit as nat).reverse(),
                ToolCall::Get { id } => match run_with_id(entries@, id) {
                    Some(e) => r == ToolStep::ReadLog(e),
                    None => r matches ToolStep::Reply(reply) && is_plain(
                        reply,
                        "No run found with id "@ + decimal(id as nat),
                    ),
                },
            },
        },
{
    match index {
        Err(fault) => {
            let mut message = "Storage error: ".to_owned();
            message.append(fault.as_str());
            ToolStep::Reply(RpcReply::Failure(RpcError { code: -32000, message }))
        },
        Ok(entries) => match call {
            ToolCall::Last => match Storage::get_last(entries.as_slice()) {
                Some(e) => ToolStep::ReadLog(e),
                None => ToolStep::Reply(
                    RpcReply::Success(
                        RpcResult::Content(ToolText::Plain("No runs recorded yet.".to_owned())),
                    ),
                ),
            },
            ToolCall::List { limit } => {
                let runs = Storage::latest_first(entries.as_slice(), limit);
                ToolStep::Reply(RpcReply::Success(RpcResult::Content(ToolText::Runs(runs))))
            },
            ToolCall::Get { id } => match Storage::get_by_id(entries.as_slice(), id) {
                Some(e) => ToolStep::ReadLog(e),
                None => {
                    let mut text = "No run found with id ".to_owned();
                    let digits = decimal_string(id);
                    text.append(digits.as_str());
                    ToolStep::Reply(
                        RpcReply::Success(RpcResult::Content(ToolText::Plain(text))),
                    )
                },
            },
        },
    }
}

/// Answers with the run `entry` and its log: the text of `log`, or nothing
/// when the log could not be read.
pub fn after_log_read(entry: RunEntry, log: Option<String>) -> (r: RpcReply)
    ensures
        r matches RpcReply::Success(RpcResult::Content(ToolText::Run { entry: e, output }))
            && e == entry && output@ == match log {
            Some(l) => l@,
            None => Seq::<char>::empty(),
        },
{
    let output = match log {
        Some(l) => l,
        None => String::new(),
    };
    RpcReply::Success(RpcResult::Content(ToolText::Run { entry, output }))
}

} // verus!
