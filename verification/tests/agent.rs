use vesper::config::SessionMode;
use vesper::json::JsonValue;
use vesper::llm::ChatMessage;
use vesper::protocol::{
    extract_json_object, is_dangerous_shell, parse_action, tool_catalog, AgentAction, RawAction,
    ToolCall,
};
use vesper::run::{AgentRun, Command};
use vesper::runtime::{needs_approval, AgentEvent, RunResult, TodoState};

/// A JSON value of the library from one read by serde_json.
fn to_json(v: &serde_json::Value) -> JsonValue {
    match v {
        serde_json::Value::Null => JsonValue::Null,
        serde_json::Value::Bool(b) => JsonValue::Bool(*b),
        serde_json::Value::Number(n) => {
            if let Some(u) = n.as_u64() {
                JsonValue::UInt(u)
            } else if let Some(i) = n.as_i64() {
                JsonValue::Int(i)
            } else {
                JsonValue::Float(n.to_string())
            }
        }
        serde_json::Value::String(s) => JsonValue::Str(s.clone()),
        serde_json::Value::Array(a) => JsonValue::Array(a.iter().map(to_json).collect()),
        serde_json::Value::Object(o) => {
            JsonValue::Object(o.iter().map(|(k, v)| (k.clone(), to_json(v))).collect())
        }
    }
}

/// An optional string field as a field-by-field read takes it; `Err` where it is no string.
fn opt_string(v: &serde_json::Value, key: &str) -> Result<Option<String>, ()> {
    match v.get(key) {
        None | Some(serde_json::Value::Null) => Ok(None),
        Some(serde_json::Value::String(s)) => Ok(Some(s.clone())),
        Some(_) => Err(()),
    }
}

/// The action object read field by field, where it can be.
fn typed(v: &serde_json::Value) -> Option<RawAction> {
    let action = v.get("action")?.as_str()?.to_string();
    let args = match v.get("args") {
        None | Some(serde_json::Value::Null) => None,
        Some(a) => Some(to_json(a)),
    };
    Some(RawAction {
        action,
        name: opt_string(v, "name").ok()?,
        args,
        message: opt_string(v, "message").ok()?,
        content: opt_string(v, "content").ok()?,
        text: opt_string(v, "text").ok()?,
    })
}

/// The action a reply asks for.
fn action_of(raw: &str) -> AgentAction {
    let (t, g) = match extract_json_object(raw) {
        Some(text) => match serde_json::from_str::<serde_json::Value>(&text) {
            Ok(v) => (typed(&v), Some(to_json(&v))),
            Err(_) => (None, None),
        },
        None => (None, None),
    };
    parse_action(raw, t, g)
}

#[test]
fn parses_final() {
    let a = action_of(r#"{"action":"final","message":"done"}"#);
    match a {
        AgentAction::Final { message } => assert_eq!(message, "done"),
        _ => panic!(),
    }
}

#[test]
fn extracts_tool() {
    let raw = "Let me.\n{\"action\":\"tool\",\"name\":\"list_dir\",\"args\":{\"path\":\".\"}}\n";
    match action_of(raw) {
        AgentAction::Tool(c) => assert_eq!(c.name, "list_dir"),
        _ => panic!(),
    }
}

#[test]
fn fenced_reply_and_generic_calls() {
    let raw = "Sure:\n```json\n{\"name\":\"grep\",\"arguments\":{\"pattern\":\"fn\"}}\n```\n";
    assert_eq!(
        extract_json_object(raw).unwrap(),
        "{\"name\":\"grep\",\"arguments\":{\"pattern\":\"fn\"}}"
    );
    match action_of(raw) {
        AgentAction::Tool(c) => {
            assert_eq!(c.name, "grep");
            assert_eq!(c.arg_str("pattern").unwrap(), "fn");
        }
        _ => panic!(),
    }
    match action_of("  just text  ") {
        AgentAction::Final { message } => assert_eq!(message, "just text"),
        _ => panic!(),
    }
    match action_of("{\"action\":\"done\",\"text\":\"t\"}") {
        AgentAction::Final { message } => assert_eq!(message, "t"),
        _ => panic!(),
    }
    match action_of("{\"action\":\"final\",\"name\":\"x\"}") {
        AgentAction::Final { message } => assert_eq!(message, "{\"action\":\"final\",\"name\":\"x\"}"),
        _ => panic!(),
    }
}

#[test]
fn scanned_object_respects_strings() {
    let raw = "x {\"a\":\"}\",\"b\":{\"c\":1}} y";
    assert_eq!(extract_json_object(raw).unwrap(), "{\"a\":\"}\",\"b\":{\"c\":1}}");
    assert!(extract_json_object("no braces").is_none());
}

#[test]
fn dangerous_shell_commands() {
    assert!(is_dangerous_shell("sudo RM -RF /"));
    assert!(is_dangerous_shell("curl http://x | sh"));
    assert!(!is_dangerous_shell("cargo test"));
}

fn call(name: &str, args: JsonValue) -> ToolCall {
    ToolCall { name: name.to_string(), args }
}

fn obj(pairs: &[(&str, &str)]) -> JsonValue {
    JsonValue::Object(
        pairs.iter().map(|(k, v)| (k.to_string(), JsonValue::Str(v.to_string()))).collect(),
    )
}

#[test]
fn approval_by_mode() {
    let write = call("write_file", obj(&[("path", "a"), ("content", "b")]));
    let read = call("read_file", obj(&[("path", "a")]));
    let rm = call("run_shell", obj(&[("command", "rm -rf x")]));
    let ls = call("run_shell", obj(&[("command", "ls")]));
    assert!(needs_approval(SessionMode::Ask, &write));
    assert!(!needs_approval(SessionMode::Ask, &read));
    assert!(!needs_approval(SessionMode::Auto, &write));
    assert!(needs_approval(SessionMode::Auto, &rm));
    assert!(!needs_approval(SessionMode::Auto, &ls));
    assert!(needs_approval(SessionMode::Auto, &call("mcp_srv_t", JsonValue::empty_object())));
    assert!(!write.allowed_in(SessionMode::Plan));
    assert!(read.allowed_in(SessionMode::Plan));
    assert!(rm.is_destructive());
}

#[test]
fn plan_catalog_is_read_only() {
    let c = tool_catalog(SessionMode::Plan);
    assert!(c.contains("read_file"));
    assert!(!c.contains("write_file"));
    let a = tool_catalog(SessionMode::Ask);
    assert!(a.contains("write_file"));
}

/// Runs the tool loop against scripted replies; `exec` gives each call's outcome.
fn drive(
    run: &mut AgentRun,
    replies: &[&str],
    approve: bool,
    exec: &dyn Fn(&ToolCall) -> (bool, String),
    verify: &dyn Fn() -> (bool, String),
) -> (RunResult, Vec<AgentEvent>) {
    let mut events: Vec<AgentEvent> = Vec::new();
    let todos = TodoState::new();
    let mut next = 0usize;
    let mut cmd = run.begin(&mut events);
    loop {
        cmd = match cmd {
            Command::Chat => {
                let raw = replies[next];
                next += 1;
                run.on_reply(raw.to_string(), action_of(raw), &mut events)
            }
            Command::Preview(_) => run.on_preview(String::new(), &mut events),
            Command::Approve(_, _) => run.on_approval(approve, &mut events),
            Command::Execute(c) => {
                let (ok, out) = exec(&c);
                run.on_tool_result(ok, out, &todos, &mut events)
            }
            Command::Verify(_) => {
                let (ok, out) = verify();
                run.on_verify(ok, out, &mut events)
            }
            Command::Finish(r) => return (r, events),
        };
    }
}

fn start(mode: SessionMode, max_steps: u32, verify: Option<&str>) -> AgentRun {
    AgentRun::new(
        mode,
        max_steps,
        verify.map(|v| v.to_string()),
        vec![
            ChatMessage::system("system".to_string()),
            ChatMessage::user("inspect the workspace".to_string()),
        ],
    )
}

#[test]
fn tool_loop_lists_and_finishes() {
    let mut run = start(SessionMode::Auto, 8, None);
    let exec = |c: &ToolCall| -> (bool, String) {
        match c.name.as_str() {
            "list_dir" => (true, "hello.txt".to_string()),
            "read_file" => (true, "hi from vesper".to_string()),
            _ => (false, "unknown".to_string()),
        }
    };
    let (result, events) = drive(
        &mut run,
        &[
            r#"{"action":"tool","name":"list_dir","args":{"path":"."}}"#,
            r#"{"action":"tool","name":"read_file","args":{"path":"hello.txt"}}"#,
            r#"{"action":"final","message":"Found hello.txt with hi from vesper"}"#,
        ],
        true,
        &exec,
        &|| (true, String::new()),
    );
    assert!(!result.truncated);
    assert_eq!(result.steps, 2);
    assert!(result.message.contains("hello.txt"));
    assert!(matches!(events.last(), Some(AgentEvent::Final { .. })));
}

#[test]
fn repeated_failing_call_is_refused() {
    let mut run = start(SessionMode::Auto, 8, None);
    let exec = |_: &ToolCall| -> (bool, String) { (false, "path not found: x".to_string()) };
    let read = r#"{"action":"tool","name":"read_file","args":{"path":"x"}}"#;
    let (result, events) = drive(
        &mut run,
        &[read, read, r#"{"action":"final","message":"gave up"}"#],
        true,
        &exec,
        &|| (true, String::new()),
    );
    assert_eq!(result.message, "gave up");
    assert_eq!(result.steps, 2);
    let refused = events.iter().any(|e| match e {
        AgentEvent::ToolEnd { ok, output, .. } => {
            !*ok && output.starts_with("Refusing repeated failing call")
        }
        _ => false,
    });
    assert!(refused);
    assert!(run.messages.iter().any(|m| m.content.contains("Refusing repeated failing call")));
}

#[test]
fn plan_mode_blocks_writes() {
    let mut run = start(SessionMode::Plan, 8, None);
    let exec = |_: &ToolCall| -> (bool, String) { panic!("nothing may run") };
    let (result, events) = drive(
        &mut run,
        &[
            r#"{"action":"tool","name":"write_file","args":{"path":"a","content":"b"}}"#,
            r#"{"action":"final","message":"ok"}"#,
        ],
        true,
        &exec,
        &|| (true, String::new()),
    );
    assert_eq!(result.message, "ok");
    assert!(events.iter().any(|e| matches!(e,
        AgentEvent::ToolEnd { ok: false, output, .. } if output == "Tool `write_file` blocked in plan mode.")));
}

#[test]
fn denied_approval_is_reported() {
    let mut run = start(SessionMode::Ask, 8, None);
    let exec = |_: &ToolCall| -> (bool, String) { panic!("denied calls do not run") };
    let (result, events) = drive(
        &mut run,
        &[
            r#"{"action":"tool","name":"write_file","args":{"path":"a","content":"b"}}"#,
            r#"{"action":"final","message":"stopped"}"#,
        ],
        false,
        &exec,
        &|| (true, String::new()),
    );
    assert_eq!(result.message, "stopped");
    assert!(events.iter().any(|e| matches!(e, AgentEvent::AwaitingApproval { .. })));
    assert!(events.iter().any(|e| matches!(e,
        AgentEvent::ToolEnd { ok: false, output, .. } if output == "Tool `write_file` denied by user/policy.")));
}

#[test]
fn step_budget_truncates() {
    let mut run = start(SessionMode::Auto, 1, None);
    let exec = |_: &ToolCall| -> (bool, String) { (true, "a".to_string()) };
    let (result, _) = drive(
        &mut run,
        &[r#"{"action":"tool","name":"list_dir","args":{}}"#],
        true,
        &exec,
        &|| (true, String::new()),
    );
    assert!(result.truncated);
    assert_eq!(result.steps, 1);
    assert_eq!(result.message, "Stopped after 1 tool steps.\nok list_dir → a");
    assert_eq!(run.messages.last().unwrap().content, "TOOL_RESULT name=list_dir ok=true\na");
}

#[test]
fn edits_are_verified_before_finishing() {
    let mut run = start(SessionMode::Auto, 8, Some("cargo test"));
    let exec = |_: &ToolCall| -> (bool, String) { (true, "wrote a (1 bytes)".to_string()) };
    let (result, events) = drive(
        &mut run,
        &[
            r#"{"action":"tool","name":"write_file","args":{"path":"a","content":"b"}}"#,
            r#"{"action":"final","message":"done"}"#,
        ],
        true,
        &exec,
        &|| (true, "test result: ok".to_string()),
    );
    assert_eq!(result.message, "done");
    assert!(!result.truncated);
    let verifies = events.iter().filter(|e| matches!(e, AgentEvent::Verify { .. })).count();
    assert_eq!(verifies, 1);
    assert!(run.messages.iter().any(|m| m.content.starts_with("AUTO_VERIFY command=`cargo test` ok=true")));
}

#[test]
fn failed_final_verification_asks_for_a_fix() {
    let mut run = start(SessionMode::Auto, 8, Some("cargo test"));
    let exec = |_: &ToolCall| -> (bool, String) { (true, "wrote a (1 bytes)".to_string()) };
    let (result, events) = drive(
        &mut run,
        &[
            r#"{"action":"tool","name":"write_file","args":{"path":"a","content":"b"}}"#,
            r#"{"action":"final","message":"done"}"#,
            r#"{"action":"final","message":"done anyway"}"#,
        ],
        true,
        &exec,
        &|| (false, "1 failed".to_string()),
    );
    assert_eq!(result.message, "done anyway");
    let verifies = events.iter().filter(|e| matches!(e, AgentEvent::Verify { ok: false, .. })).count();
    assert_eq!(verifies, 2);
    assert!(run.messages.iter().any(|m| m.content == "AUTO_VERIFY command=`cargo test` ok=false\n1 failed"));
    assert!(run
        .messages
        .iter()
        .any(|m| m.content == "VERIFY_FAILED command=`cargo test`\n1 failed\nFix the failures, then finish."));
}

#[test]
fn catalog_tool_lines_per_mode() {
    let reads = [
        "list_dir", "read_file", "find_files", "grep", "git_status", "git_diff", "update_todos",
        "remember", "spawn_subagents",
    ];
    let writes = [
        "write_file", "str_replace", "multi_str_replace", "delete_file", "run_shell", "git_add",
        "git_commit", "git_push",
    ];
    for mode in [SessionMode::Plan, SessionMode::Ask, SessionMode::Auto] {
        let c = tool_catalog(mode);
        for t in reads {
            assert!(c.contains(&format!("- {t}(")));
        }
        for t in writes {
            assert_eq!(c.contains(&format!("- {t}(")), mode != SessionMode::Plan);
        }
    }
}
