use recap::mcp::{
    after_index_read, after_log_read, on_request, parse_error, plan_tool_call, RequestAction,
    RpcReply, RpcResult, ToolCall, ToolStep, ToolText,
};
use recap::storage::{RunEntry, Timestamp};

fn run(id: u64, cmd: &str) -> RunEntry {
    RunEntry { id, cmd: cmd.to_string(), exit: 0, at: Timestamp { secs: 1_700_000_000, nanos: 0 } }
}

fn failure(reply: &RpcReply) -> (i64, String) {
    match reply {
        RpcReply::Failure(e) => (e.code, e.message.clone()),
        other => panic!("not a failure: {:?}", other),
    }
}

fn plain(reply: &RpcReply) -> String {
    match reply {
        RpcReply::Success(RpcResult::Content(ToolText::Plain(t))) => t.clone(),
        other => panic!("not plain text: {:?}", other),
    }
}

#[test]
fn parse_error_reply() {
    let r = parse_error("EOF while parsing a value at line 1 column 0");
    assert_eq!(failure(&r), (-32700, "Parse error: EOF while parsing a value at line 1 column 0".to_string()));
}

#[test]
fn plan_known_tools() {
    assert_eq!(plan_tool_call(Some("recap_last"), None, None).unwrap(), ToolCall::Last);
    assert_eq!(plan_tool_call(Some("recap_list"), None, None).unwrap(), ToolCall::List { limit: 10 });
    assert_eq!(plan_tool_call(Some("recap_list"), Some(3), None).unwrap(), ToolCall::List { limit: 3 });
    assert_eq!(plan_tool_call(Some("recap_get"), None, Some(7)).unwrap(), ToolCall::Get { id: 7 });
}

#[test]
fn plan_refusals() {
    let e = plan_tool_call(Some("recap_get"), Some(3), None).unwrap_err();
    assert_eq!((e.code, e.message), (-32602, "Missing required parameter: id".to_string()));
    let e = plan_tool_call(Some("recap_delete"), None, None).unwrap_err();
    assert_eq!((e.code, e.message), (-32602, "Unknown tool: recap_delete".to_string()));
    let e = plan_tool_call(None, None, None).unwrap_err();
    assert_eq!((e.code, e.message), (-32602, "Unknown tool: ".to_string()));
}

#[test]
fn requests_by_method() {
    assert!(matches!(
        on_request("initialize", None, None, None),
        RequestAction::Reply(RpcReply::Success(RpcResult::ServerInfo))
    ));
    assert!(matches!(on_request("notifications/initialized", None, None, None), RequestAction::Ignore));
    assert!(matches!(
        on_request("tools/list", None, None, None),
        RequestAction::Reply(RpcReply::Success(RpcResult::ToolList))
    ));
    assert!(matches!(
        on_request("tools/call", Some("recap_get"), None, Some(2)),
        RequestAction::Call(ToolCall::Get { id: 2 })
    ));
    match on_request("tools/call", Some("nope"), None, None) {
        RequestAction::Reply(r) => assert_eq!(failure(&r), (-32602, "Unknown tool: nope".to_string())),
        other => panic!("{:?}", other),
    }
    match on_request("resources/list", None, None, None) {
        RequestAction::Reply(r) => assert_eq!(failure(&r), (-32601, "Method not found".to_string())),
        other => panic!("{:?}", other),
    }
}

#[test]
fn storage_errors_are_reported() {
    match after_index_read(ToolCall::Last, Err("permission denied".to_string())) {
        ToolStep::Reply(r) => assert_eq!(failure(&r), (-32000, "Storage error: permission denied".to_string())),
        other => panic!("{:?}", other),
    }
}

#[test]
fn last_tool() {
    let entries = vec![run(1, "a"), run(2, "b")];
    match after_index_read(ToolCall::Last, Ok(entries)) {
        ToolStep::ReadLog(e) => assert_eq!(e, run(2, "b")),
        other => panic!("{:?}", other),
    }
    match after_index_read(ToolCall::Last, Ok(vec![])) {
        ToolStep::Reply(r) => assert_eq!(plain(&r), "No runs recorded yet."),
        other => panic!("{:?}", other),
    }
}

#[test]
fn list_tool_is_newest_first() {
    let entries = vec![run(1, "a"), run(2, "b"), run(3, "c")];
    match after_index_read(ToolCall::List { limit: 2 }, Ok(entries.clone())) {
        ToolStep::Reply(RpcReply::Success(RpcResult::Content(ToolText::Runs(runs)))) => {
            assert_eq!(runs, vec![run(3, "c"), run(2, "b")])
        }
        other => panic!("{:?}", other),
    }
    match after_index_read(ToolCall::List { limit: 0 }, Ok(entries)) {
        ToolStep::Reply(RpcReply::Success(RpcResult::Content(ToolText::Runs(runs)))) => assert!(runs.is_empty()),
        other => panic!("{:?}", other),
    }
}

#[test]
fn get_tool() {
    let entries = vec![run(1, "a"), run(2, "b")];
    match after_index_read(ToolCall::Get { id: 1 }, Ok(entries.clone())) {
        ToolStep::ReadLog(e) => assert_eq!(e, run(1, "a")),
        other => panic!("{:?}", other),
    }
    match after_index_read(ToolCall::Get { id: 42 }, Ok(entries)) {
        ToolStep::Reply(r) => assert_eq!(plain(&r), "No run found with id 42"),
        other => panic!("{:?}", other),
    }
}

#[test]
fn log_is_attached_or_empty() {
    match after_log_read(run(1, "a"), Some("hello\n".to_string())) {
        RpcReply::Success(RpcResult::Content(ToolText::Run { entry, output })) => {
            assert_eq!(entry, run(1, "a"));
            assert_eq!(output, "hello\n");
        }
        other => panic!("{:?}", other),
    }
    match after_log_read(run(1, "a"), None) {
        RpcReply::Success(RpcResult::Content(ToolText::Run { output, .. })) => assert_eq!(output, ""),
        other => panic!("{:?}", other),
    }
}
