use vesper::agent::{
    route, status_context, summarize, tool_fingerprint, truncate_for_event, Agent, Route,
};
use vesper::cli::{event_output, head_lines, short_args, Stream};
use vesper::config::SessionMode;
use vesper::gather::{cargo_members, dedup_paths, is_source_name, skip_dir, GatherStep, Gathering};
use vesper::json::JsonValue;
use vesper::memory::ProjectMemory;
use vesper::project::scan_project;
use vesper::protocol::{tool_catalog, ToolCall};
use vesper::runtime::{
    parse_edits, parse_todo_items, plan_tool, preview_source, preview_tool, soften_old_string,
    AgentEvent, TodoState, ToolContext, ToolOp,
};
use vesper::sandbox::Workspace;

fn s(v: &str) -> JsonValue {
    JsonValue::Str(v.to_string())
}

fn obj(pairs: Vec<(&str, JsonValue)>) -> JsonValue {
    JsonValue::Object(pairs.into_iter().map(|(k, v)| (k.to_string(), v)).collect())
}

fn call(name: &str, args: JsonValue) -> ToolCall {
    ToolCall { name: name.to_string(), args }
}

#[test]
fn routes_by_prompt() {
    assert_eq!(route("Hello there"), Route::FastAnswer);
    assert_eq!(route("hi vesper, summarize the codebase"), Route::Summarize);
    assert_eq!(route("What's happening in this repo?"), Route::Summarize);
    assert_eq!(route("fix the failing test"), Route::ToolLoop);
}

#[test]
fn event_texts() {
    assert_eq!(summarize("  first line  \nsecond"), "first line");
    assert_eq!(summarize("\n"), "(empty)");
    let long = "x".repeat(100);
    assert_eq!(summarize(&long), format!("{}…", "x".repeat(80)));
    let big = "y".repeat(3000);
    assert_eq!(truncate_for_event(&big), format!("{}… [3000 bytes total]", "y".repeat(2500)));
    assert_eq!(truncate_for_event("short"), "short");
    let c = call("read_file", obj(vec![("path", s("a.rs"))]));
    assert_eq!(tool_fingerprint(&c), "read_file:{\"path\":\"a.rs\"}");
}

#[test]
fn tool_arguments_are_read() {
    match plan_tool(&call("read_file", obj(vec![("path", s("a")), ("start_line", JsonValue::UInt(3))]))) {
        Ok(ToolOp::ReadFile { path }) => assert_eq!(path, "a"),
        other => panic!("{other:?}"),
    }
    match plan_tool(&call(
        "read_file",
        obj(vec![("path", s("a")), ("start_line", s("3")), ("end_line", JsonValue::UInt(9))]),
    )) {
        Ok(ToolOp::ReadFileRange { path, start_line, end_line }) => {
            assert_eq!(path, "a");
            assert_eq!(start_line, 3);
            assert_eq!(end_line, 9);
        }
        other => panic!("{other:?}"),
    }
    match plan_tool(&call("list_dir", obj(vec![]))) {
        Ok(ToolOp::ListDir { path }) => assert_eq!(path, "."),
        other => panic!("{other:?}"),
    }
    match plan_tool(&call("str_replace", obj(vec![("path", s("a")), ("old", s("x")), ("new", s("y"))]))) {
        Ok(ToolOp::StrReplace { path, old, new }) => {
            assert_eq!((path.as_str(), old.as_str(), new.as_str()), ("a", "x", "y"))
        }
        other => panic!("{other:?}"),
    }
    let e = plan_tool(&call("str_replace", obj(vec![("path", s("a"))]))).unwrap_err();
    assert_eq!(e.message, "str_replace requires old_string");
    let e = plan_tool(&call("run_shell", obj(vec![("command", s("sudo rm -rf / --x"))]))).unwrap_err();
    assert_eq!(e.message, "refusing catastrophic command");
    let e = plan_tool(&call("teleport", obj(vec![]))).unwrap_err();
    assert_eq!(e.message, "unknown tool: teleport");
    match plan_tool(&call("git_add", obj(vec![]))) {
        Ok(ToolOp::GitAdd { paths }) => assert_eq!(paths, "."),
        other => panic!("{other:?}"),
    }
}

#[test]
fn edits_and_todos_are_read() {
    let args = obj(vec![(
        "edits",
        JsonValue::Array(vec![
            obj(vec![("old_string", s("a")), ("new_string", s("b"))]),
            obj(vec![("old", s("c")), ("new", s("d"))]),
        ]),
    )]);
    let edits = parse_edits(&args).unwrap();
    assert_eq!(edits, vec![("a".to_string(), "b".to_string()), ("c".to_string(), "d".to_string())]);
    assert_eq!(parse_edits(&obj(vec![])).unwrap_err().message, "multi_str_replace requires edits[]");
    let bad = obj(vec![("edits", JsonValue::Array(vec![obj(vec![("old", s("c"))])]))]);
    assert_eq!(parse_edits(&bad).unwrap_err().message, "edit missing new_string");
    let items = parse_todo_items(&obj(vec![("items", JsonValue::Array(vec![s("one"), JsonValue::UInt(2), s("two")]))])).unwrap();
    assert_eq!(items, vec!["one", "two"]);
    let items = parse_todo_items(&obj(vec![("items", s(" a \n\n b"))])).unwrap();
    assert_eq!(items, vec!["a", "b"]);
    assert_eq!(parse_todo_items(&obj(vec![])).unwrap_err().message, "update_todos requires items");
}

#[test]
fn soft_match_retry() {
    let content = "fn main() {\n    let  value = 1;\n}\n";
    assert_eq!(soften_old_string(content, "let  value").unwrap(), "let  value");
    assert_eq!(soften_old_string(content, "let value = 1;").unwrap(), "    let  value = 1;");
    assert!(soften_old_string(content, "let x = 1;").is_none());
    assert!(soften_old_string(content, "y = 2").is_none());
    assert!(soften_old_string("ab\nab\n", "a b").is_none());
}

#[test]
fn previews() {
    let w = call("write_file", obj(vec![("path", s("a.txt")), ("content", s("new\n"))]));
    assert_eq!(preview_source(&w).unwrap().unwrap(), "a.txt");
    assert_eq!(preview_tool(&w, "old\n").unwrap(), "--- a/a.txt\n+++ b/a.txt\n@@ -1,1 +1,1 @@\n-old\n+new\n");
    let r = call("str_replace", obj(vec![("path", s("a")), ("old_string", s("b")), ("new_string", s("c"))]));
    assert!(preview_tool(&r, "a\nb\n").unwrap().contains("+c"));
    let sh = call("run_shell", obj(vec![("cmd", s("ls -la"))]));
    assert!(preview_source(&sh).unwrap().is_none());
    assert_eq!(preview_tool(&sh, "").unwrap(), "$ ls -la");
    let gc = call("git_commit", obj(vec![("message", s("say \"hi\""))]));
    assert_eq!(preview_tool(&gc, "").unwrap(), "git commit -m \"say \\\"hi\\\"\"");
    let del = call("delete_file", obj(vec![("path", s("x"))]));
    assert_eq!(preview_tool(&del, "").unwrap(), "DELETE x");
    let m = call("multi_str_replace", obj(vec![("path", s("f")), ("edits", JsonValue::Array(vec![JsonValue::Null, JsonValue::Null]))]));
    assert_eq!(
        preview_tool(&m, "body").unwrap(),
        "multi_str_replace on f (2 edits)\n--- current file starts ---\nbody"
    );
    assert_eq!(preview_tool(&call("grep", obj(vec![])), "").unwrap(), "grep");
    let e = preview_tool(&call("write_file", obj(vec![])), "").unwrap_err();
    assert_eq!(e.message, "path required");
}

#[test]
fn local_tools_change_run_state() {
    let ws = Workspace::new("/w".to_string());
    let mut memory = ProjectMemory::new();
    let mut todos = TodoState::new();
    {
        let mut ctx = ToolContext { workspace: &ws, memory: &mut memory, todos: &mut todos };
        let op = ToolOp::UpdateTodos { items: vec!["a".to_string(), "b".to_string()] };
        assert_eq!(ctx.apply_local(&op).unwrap(), "todos updated (2 items)");
        let op = ToolOp::Remember { fact: " uses tokio ".to_string() };
        assert_eq!(ctx.apply_local(&op).unwrap(), "remembered:  uses tokio ");
        assert!(ctx.apply_local(&ToolOp::GitStatus).is_none());
    }
    assert_eq!(todos.snapshot(), vec!["a", "b"]);
    assert_eq!(memory.facts, vec!["uses tokio"]);
}

#[test]
fn agent_state() {
    let mut agent = Agent::new(Workspace::new("/w".to_string()), ProjectMemory::new());
    assert!(matches!(agent.mode, SessionMode::Ask));
    assert!(matches!(agent.cycle_mode(), SessionMode::Auto));
    agent.remember("fact one");
    agent.project_memory_mut().add("fact two");
    assert_eq!(agent.project_memory().facts, vec!["fact one", "fact two"]);
    assert_eq!(agent.forget(0).unwrap(), "fact one");
    agent.record("user", "hi");
    assert_eq!(agent.session().turns().len(), 1);
    agent.clear_session();
    assert_eq!(agent.session().turns().len(), 0);
    assert_eq!(agent.workspace().root(), "/w");
}

#[test]
fn status_snapshot() {
    let entries = vec!["Cargo.toml".to_string(), "src/".to_string()];
    let st = status_context("type=rust", SessionMode::Plan, None, " M a.rs", &entries, "");
    assert_eq!(
        st,
        "project: type=rust\nmode: plan\nverify: (none)\n\ngit status:\n M a.rs\n\nentries:\nCargo.toml\nsrc/\n\nmemory:\n"
    );
}

#[test]
fn plan_catalog_is_prefix() {
    let plan = tool_catalog(SessionMode::Plan);
    let ask = tool_catalog(SessionMode::Ask);
    assert!(ask.starts_with(&plan));
    assert_eq!(tool_catalog(SessionMode::Auto), ask);
}

#[test]
fn printed_events() {
    let ev = AgentEvent::Thinking { step: 3 };
    let p = event_output(&ev, false);
    assert_eq!(p.len(), 1);
    assert_eq!(p[0].stream, Stream::Stderr);
    assert_eq!(p[0].text, "[vesper] thinking (step 3)…");
    let f = event_output(&AgentEvent::Final { message: "done".to_string() }, false);
    assert_eq!(f[0].stream, Stream::Stdout);
    assert_eq!(f[0].text, "done");
    let f = event_output(&AgentEvent::Final { message: "done".to_string() }, true);
    assert_eq!(f[0].text, "");
    let t = event_output(&AgentEvent::StreamToken { token: "tok".to_string() }, false);
    assert!(!t[0].newline);
    assert_eq!(head_lines("a\nb\nc", 2), "a\nb");
    let c = call("read_file", obj(vec![("path", s("src/a.rs"))]));
    assert_eq!(short_args(&c), "src/a.rs");
}

#[test]
fn gathering_limits() {
    let mut g = Gathering::new();
    assert!(g.has_room());
    g.add("README.md".to_string(), "hello");
    assert!(g.has_file("README.md"));
    g.skip("big.bin".to_string());
    let info = scan_project(&Vec::new(), &Vec::new());
    let d = g.finish(info);
    assert_eq!(d.files.len(), 1);
    assert_eq!(d.files[0].bytes, 5);
    assert_eq!(d.skipped, vec!["big.bin"]);
    let p = d.prompt_block();
    assert!(p.starts_with("Project scan: type=unknown; languages=unknown; key_files=(none)\nLanguages: unknown\nKey manifests: \n\n"));
    assert!(p.contains("===== FILE: README.md (5 bytes, excerpt) =====\nhello\n\n"));
    assert!(p.ends_with("Also noted but not fully inlined:\n- big.bin\n"));
    assert!(skip_dir("target"));
    assert!(skip_dir(".hidden"));
    assert!(!skip_dir("src"));
    assert!(is_source_name("main.go"));
    assert!(!is_source_name("notes.txt"));
    let members = cargo_members("[workspace]\nmembers = [\n  \"vesper-cli\",\n  \"crates/x\",\n  \"core\"\n]\n");
    assert_eq!(members, vec!["vesper-cli", "crates/x", "core"]);
    let d = dedup_paths(&vec!["a".to_string(), "b".to_string(), "a".to_string()]);
    assert_eq!(d, vec!["a", "b"]);
}

#[test]
fn printed_event_lines() {
    let c = call("run_shell", obj(vec![("command", s("ls"))]));
    let p = event_output(&AgentEvent::ToolStart { step: 2, call: c }, false);
    assert_eq!(p[0].text, "[vesper] ▶ #2 run_shell ls");
    let p = event_output(
        &AgentEvent::ToolEnd { step: 2, ok: false, output: "a\nb".to_string() },
        false,
    );
    assert_eq!(p[0].text, "[vesper] ■ #2 ERR\na\nb");
    let p = event_output(&AgentEvent::Todos { items: vec!["x".to_string(), "y".to_string()] }, false);
    let texts: Vec<&str> = p.iter().map(|l| l.text.as_str()).collect();
    assert_eq!(texts, vec!["[vesper] todos:", "  1. x", "  2. y"]);
    let p = event_output(
        &AgentEvent::Verify { command: "cargo test".to_string(), output: String::new(), ok: true },
        false,
    );
    assert_eq!(p.len(), 1);
    assert_eq!(p[0].text, "[vesper] verify `cargo test` → PASS");
    let p = event_output(&AgentEvent::Checkpoint { id: 4, label: "before edit a".to_string() }, false);
    assert_eq!(p[0].text, "[vesper] checkpoint #4: before edit a");
    assert!(event_output(&AgentEvent::DiffPreview { path: "a".to_string(), diff: String::new() }, false).is_empty());
}

#[test]
fn tool_error_output() {
    let e = vesper::runtime::ToolError { message: "path not found: x".to_string() };
    assert_eq!(vesper::runtime::error_output(&e), "error: path not found: x");
}

fn expected_system(workspace: &str, mode: SessionMode, summary: &str, memory: &str, verify: Option<&str>, listing: &str) -> String {
    let verify_line = verify
        .map(|c| format!("After code changes, verification runs automatically: `{c}`. Fix failures before finishing."))
        .unwrap_or_else(|| "If you change code, run project tests via run_shell before finishing.".into());
    let mode_help = match mode {
        SessionMode::Plan => "research only — mutating tools disabled",
        SessionMode::Ask => "mutating tools require user approval",
        SessionMode::Auto => "routine edits auto-approved; destructive still confirmed",
    };
    format!(
        r#"You are Vesper, a local-first coding agent (Rust). Nothing leaves this machine.
Workspace: {workspace}
Mode: {mode_str} ({mode_help})
Project: {summary}
Top-level entries (already known — do NOT assume src/main.rs exists):
{listing}
{memory}
{verify_line}

On EVERY turn output EXACTLY one JSON object (no markdown fences, no prose outside JSON):

1) Call a tool:
{{"action":"tool","name":"list_dir","args":{{"path":"."}}}}

2) Finish:
{{"action":"final","message":"your answer to the user"}}

Available tools:
{tools}

Rules:
- Answer the USER's question. Do not narrate tool failures as the final answer.
- NEVER retry the exact same failing tool call. Pick a different path or finish.
- Paths must come from list_dir / find_files / grep results — never invent src/main.rs.
- For vague questions ("what's happening?", "what is this?"), read README.md if present, then give a short project overview and finish.
- Prefer find_files/grep/read_file before editing.
- Prefer str_replace / multi_str_replace over write_file for existing files.
- Use update_todos for multi-step work.
- Never invent file contents — read them.
- Keep shell non-destructive unless required.
- After 2–4 informative tool results, prefer action=final unless you still need a specific file.
- README.md / project listing are ALREADY in context when provided — do NOT re-read README.md.
- Be brief. Prefer short final answers.
"#,
        mode_str = mode.as_str(),
        tools = tool_catalog(mode),
    )
}

#[test]
fn system_prompt_text() {
    for (mode, verify) in [(SessionMode::Plan, None), (SessionMode::Auto, Some("cargo test"))] {
        let got = vesper::agent::agent_system("/w", mode, "type=rust", "Remembered project facts:\n  0. x\n", verify, "Cargo.toml\nsrc/");
        let want = expected_system("/w", mode, "type=rust", "Remembered project facts:\n  0. x\n", verify, "Cargo.toml\nsrc/");
        assert_eq!(got, want);
    }
}

#[test]
fn shell_note_text() {
    assert_eq!(
        vesper::cli::shell_command_note("cargo build"),
        "[vesper] that looks like a shell command.\nInside this chat, use:\n/workspace /path/to/repo\n/summarize\nOr exit (/exit) and run in your terminal:\ncargo build"
    );
}

#[test]
fn request_messages_text() {
    let mut session = vesper::memory::SessionMemory::new();
    for i in 0..6 {
        session.push("user".to_string(), format!("q{i}"));
    }
    let m = vesper::agent::ask_messages("/w", "type=rust", "a\nb", "facts\n", &session, "why?");
    assert_eq!(m.len(), 2 + 4 + 1);
    assert_eq!(m[0].content, "You are Vesper, a local coding agent.\nBe concise, precise, and practical. Prefer actionable steps over fluff.\n");
    assert_eq!(m[1].content, format!("Workspace: {}\nProject: {}\nTop-level:\n{}\n{}", "/w", "type=rust", "a\nb", "facts\n"));
    assert_eq!(m[2].content, "q2");
    assert_eq!(m[6].role, "user");
    assert_eq!(m[6].content, "why?");

    let readme = "r".repeat(900);
    let sys = vesper::agent::fast_answer_system("/w", "type=rust", "a", "", &readme);
    let want = format!(
        "You are Vesper. Answer briefly (4–8 sentences max) about this local project.\n\
         Workspace: {}\nProject: {}\nTop-level:\n{}\n{}\nREADME excerpt:\n{}\n\
         No tools. Plain text only — no JSON.",
        "/w", "type=rust", "a", "", "r".repeat(600)
    );
    assert_eq!(sys, want);

    let open = vesper::agent::opening_messages("SYS".to_string(), Some(&readme), &session, "go");
    assert_eq!(open.len(), 1 + 1 + 4 + 1);
    assert_eq!(
        open[1].content,
        format!("README.md (excerpt — already loaded, do not read_file again):\n{}", "r".repeat(700))
    );
    let none = vesper::agent::opening_messages("SYS".to_string(), None, &vesper::memory::SessionMemory::new(), "go");
    assert_eq!(none.len(), 2);

    assert_eq!(
        vesper::agent::summary_system_prompt(Some("the CLI")),
        format!(
            r#"You are Vesper. You just walked this repository's important files.
Write a clear codebase summary like a senior engineer onboarding a teammate.

Structure:
1) What this project is (1 short paragraph)
2) Architecture / crates or packages (bullets)
3) Key entrypoints and what they do
4) How to run / verify (if evident)
5) Notable design choices or risks

Be concrete — name real files and symbols. No JSON. No fluff.
{}"#,
            "User focus: the CLI\n"
        )
    );
}

#[test]
fn gathering_steps() {
    let c = vec!["a".to_string(), "b".to_string()];
    let mut g = Gathering::new();
    assert!(matches!(g.next_step(&c, 0, false), GatherStep::Read(ref p) if p == "a"));
    g.add("a".to_string(), "x");
    assert!(matches!(g.next_step(&c, 0, true), GatherStep::Pass));
    assert!(matches!(g.next_step(&c, 1, true), GatherStep::Read(ref p) if p == "b"));
    assert!(matches!(g.next_step(&c, 2, false), GatherStep::Done));
    assert!(g.needs_extra_pass());
    g.add("a".to_string(), "again");
    for i in 0..23 {
        g.add(format!("f{i}"), "y");
    }
    assert!(!g.has_room());
    assert!(!g.needs_extra_pass());
    assert!(matches!(g.next_step(&c, 1, false), GatherStep::Skip(ref p) if p == "b"));
    assert!(matches!(g.next_step(&c, 1, true), GatherStep::Stop(ref p) if p == "b"));
    g.add("z".to_string(), "w");
    g.read_failed("q".to_string(), true);
    g.read_failed("r".to_string(), false);
    let d = g.finish(scan_project(&Vec::new(), &Vec::new()));
    assert_eq!(d.files.len(), 24);
    assert_eq!(d.files[0].content, "x");
    assert_eq!(d.skipped, vec!["r"]);
}

#[test]
fn gathering_cuts_long_files() {
    let mut g = Gathering::new();
    let long = "x".repeat(3000);
    g.add("big.rs".to_string(), &long);
    let d = g.finish(scan_project(&Vec::new(), &Vec::new()));
    assert_eq!(d.files[0].bytes, 3000);
    let want = format!("{}\n\n...[truncated]...\n\n{}", "x".repeat(1875), "x".repeat(593));
    assert_eq!(d.files[0].content, want);
}
