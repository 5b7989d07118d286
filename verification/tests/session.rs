use vesper::cli::{
    approves, build_options, expand_path, fingerprint, history_path, looks_like_shell_command,
    parse_slash, short_workspace, watch_command, watch_step, SlashCommand, WatchAction,
};
use vesper::config::{
    parse_i32, parse_setting, parse_u32, set_key, Config, ConfigError, ConfigOverlay,
    SessionMode, Setting,
};
use vesper::json::{json_equal, to_json_text, JsonValue};
use vesper::llm::{normalize_base_url, LineBuffer};
use vesper::mcp::{
    call_request, call_result_text, qualify, tools_from_listing, McpHub, McpToolInfo,
};
use vesper::memory::{MemoryError, ProjectMemory, SessionMemory};
use vesper::project::scan_project;
use vesper::repo_map::{build_repo_map, query_tokens};
use vesper::runtime::{AgentOptions, ApprovalPolicy};
use vesper::tool_specs::ollama_tool_specs;

#[test]
fn modes_parse_print_and_cycle() {
    assert!(matches!(SessionMode::parse(" AUTO "), Some(SessionMode::Auto)));
    assert!(SessionMode::parse("fast").is_none());
    assert_eq!(SessionMode::Plan.as_str(), "plan");
    assert!(matches!(SessionMode::Plan.cycle(), SessionMode::Ask));
    assert!(matches!(SessionMode::Ask.cycle(), SessionMode::Auto));
    assert!(matches!(SessionMode::Auto.cycle(), SessionMode::Plan));
    for m in [SessionMode::Plan, SessionMode::Ask, SessionMode::Auto] {
        assert!(SessionMode::parse(m.as_str()) == Some(m));
    }
}

#[test]
fn numbers_parse() {
    assert_eq!(parse_u32("42"), Some(42));
    assert_eq!(parse_u32("4294967296"), None);
    assert_eq!(parse_u32(""), None);
    assert_eq!(parse_u32("1x"), None);
    assert_eq!(parse_i32("-2147483648"), Some(-2147483648));
    assert_eq!(parse_i32("-5"), Some(-5));
    assert_eq!(parse_i32("2147483648"), None);
}

#[test]
fn settings_from_keys() {
    assert!(matches!(parse_setting("max_steps", "12"), Ok(Setting::MaxSteps(12))));
    assert!(matches!(parse_setting("max_steps", "many"), Err(ConfigError::BadNumber)));
    assert!(matches!(parse_setting("mode", "nope"), Err(ConfigError::BadMode)));
    match parse_setting("colour", "x") {
        Err(ConfigError::UnknownKey(k)) => assert_eq!(k, "colour"),
        _ => panic!(),
    }
    match parse_setting("ollama_url", "http://h:1") {
        Ok(Setting::OllamaHost(h)) => assert_eq!(h, "http://h:1"),
        _ => panic!(),
    }
}

#[test]
fn layered_config() {
    let mut global = ConfigOverlay::empty();
    set_key(&mut global, "model", "m1").unwrap();
    set_key(&mut global, "max_steps", "9").unwrap();
    let mut project = ConfigOverlay::empty();
    set_key(&mut project, "model", "m2").unwrap();
    set_key(&mut project, "mode", "auto").unwrap();
    assert!(set_key(&mut project, "num_ctx", "-1").is_err());
    assert!(project.num_ctx.is_none());
    let c = Config::load_layered(Some(global), Some(project), None, Some("http://gpu:11434".to_string()));
    assert_eq!(c.model, "m2");
    assert_eq!(c.max_steps, 9);
    assert!(matches!(c.mode, SessionMode::Auto));
    assert_eq!(c.ollama_host, "http://gpu:11434");
    assert_eq!(c.num_ctx, 4096);
    let d = Config::load_layered(None, None, Some("env-model".to_string()), None);
    assert_eq!(d.model, "env-model");
    assert_eq!(d.max_steps, 16);
    assert!(matches!(d.mode, SessionMode::Ask));
}

#[test]
fn config_paths_and_suggestion() {
    assert_eq!(Config::project_path("/w"), "/w/.vesper/config.json");
    assert_eq!(Config::global_path("/home/u"), "/home/u/.vesper/config.json");
    assert_eq!(Config::suggest_verify(false, false, true, true, false).unwrap(), "pytest -q");
    assert!(Config::suggest_verify(false, false, false, false, false).is_none());
}

#[test]
fn session_memory_recent() {
    let mut s = SessionMemory::new();
    s.push("user".to_string(), "a".to_string());
    s.push("assistant".to_string(), "b".to_string());
    s.push("user".to_string(), "c".to_string());
    let r = s.recent(2);
    assert_eq!(r.len(), 2);
    assert_eq!(r[0].content, "b");
    assert_eq!(r[1].content, "c");
    assert_eq!(s.recent(10).len(), 3);
    s.clear();
    assert!(s.turns().is_empty());
}

#[test]
fn project_memory_facts() {
    let mut m = ProjectMemory::new();
    m.add("  uses tokio ");
    m.add("uses tokio");
    m.add("   ");
    m.add("tests with cargo");
    assert_eq!(m.facts, vec!["uses tokio", "tests with cargo"]);
    assert_eq!(
        m.prompt_block(),
        "Remembered project facts:\n  0. uses tokio\n  1. tests with cargo\n"
    );
    assert_eq!(m.forget(0).unwrap(), "uses tokio");
    assert!(matches!(m.forget(5), Err(MemoryError::NoFact(5))));
    assert_eq!(m.facts, vec!["tests with cargo"]);
    assert_eq!(ProjectMemory::new().prompt_block(), "");
    assert_eq!(ProjectMemory::path("/w"), "/w/.vesper/memory.json");
}

#[test]
fn slash_commands() {
    assert!(matches!(parse_slash("/help"), SlashCommand::Help));
    assert!(matches!(parse_slash("/q"), SlashCommand::Exit));
    assert!(matches!(parse_slash("/mode Plan"), SlashCommand::SetMode(SessionMode::Plan)));
    assert!(matches!(parse_slash("/mode"), SlashCommand::ShowMode));
    match parse_slash("/mode turbo") {
        SlashCommand::UnknownMode(m) => assert_eq!(m, "turbo"),
        _ => panic!(),
    }
    match parse_slash("/ws  ~/code  ") {
        SlashCommand::Workspace(Some(p)) => assert_eq!(p, "~/code"),
        _ => panic!(),
    }
    assert!(matches!(parse_slash("/forget 3"), SlashCommand::Forget(3)));
    assert!(matches!(parse_slash("/forget x"), SlashCommand::Forget(usize::MAX)));
    assert!(matches!(parse_slash("/remember"), SlashCommand::Remember(None)));
    match parse_slash("/frobnicate now") {
        SlashCommand::Unknown(c) => assert_eq!(c, "/frobnicate"),
        _ => panic!(),
    }
}

#[test]
fn shell_helpers() {
    assert!(looks_like_shell_command("  cargo build"));
    assert!(!looks_like_shell_command("explain cargo"));
    assert!(approves(" YES "));
    assert!(approves("y"));
    assert!(!approves("no"));
    assert_eq!(expand_path(" \"~/src\" ", Some("/home/u")), "/home/u/src");
    assert_eq!(expand_path("~", Some("/home/u")), "/home/u");
    assert_eq!(expand_path("~/src", None), "~/src");
    assert_eq!(expand_path("'rel/dir'", Some("/home/u")), "rel/dir");
    assert_eq!(history_path(Some("/home/u")), "/home/u/.vesper/history");
    assert_eq!(history_path(None), "./.vesper/history");
    assert_eq!(short_workspace("/a/b/proj"), "proj");
}

#[test]
fn run_options() {
    assert!(matches!(build_options(SessionMode::Ask, true), (SessionMode::Auto, ApprovalPolicy::ApproveAll)));
    assert!(matches!(build_options(SessionMode::Plan, true), (SessionMode::Plan, ApprovalPolicy::ApproveAll)));
    assert!(matches!(build_options(SessionMode::Plan, false), (SessionMode::Plan, ApprovalPolicy::DenyAll)));
    assert!(matches!(build_options(SessionMode::Ask, false), (SessionMode::Ask, ApprovalPolicy::AskUser)));
    let d = AgentOptions::default();
    assert_eq!(d.max_steps, 16);
    assert!(matches!(d.approve, ApprovalPolicy::DenyAll));
    assert_eq!(ApprovalPolicy::AskUser.decided(), None);
    let o = AgentOptions::for_mode(SessionMode::Auto, 8, None, ApprovalPolicy::ApproveAll);
    assert_eq!(o.approve.decided(), Some(true));
}

#[test]
fn watch_loop_decisions() {
    let mut last = String::new();
    let out = "warning: unused\nerror[E0308]: mismatched\n\n  --> src/a.rs:1\n";
    match watch_step(&mut last, 1, out, "cargo test") {
        WatchAction::Fix(p) => {
            assert!(p.starts_with("Verify command `cargo test` failed."));
            assert!(p.ends_with(out));
        }
        _ => panic!(),
    }
    assert_eq!(last, "error[E0308]: mismatched\n  --> src/a.rs:1");
    assert!(matches!(watch_step(&mut last, 1, out, "cargo test"), WatchAction::SameFailure));
    assert!(matches!(watch_step(&mut last, 0, "", "cargo test"), WatchAction::Pass));
    assert_eq!(last, "");
    assert_eq!(fingerprint("a\n\nwarning: x\nb"), "a\nb");
    assert_eq!(watch_command(None, Some("npm test".to_string())).unwrap(), "npm test");
    assert!(watch_command(None, None).is_err());
}

#[test]
fn stream_lines_are_split() {
    let mut b = LineBuffer::new();
    assert!(b.push("{\"a\":").is_empty());
    let got = b.push("1}\n\n {\"b\":2} \n{\"c\"");
    assert_eq!(got, vec!["{\"a\":1}", "{\"b\":2}"]);
    assert_eq!(b.push(":3}\n"), vec!["{\"c\":3}"]);
    assert_eq!(normalize_base_url("http://h:11434///"), "http://h:11434");
}

fn sample_json() -> JsonValue {
    JsonValue::Object(vec![
        ("name".to_string(), JsonValue::Str("a\"b\n".to_string())),
        ("n".to_string(), JsonValue::Int(-3)),
        ("list".to_string(), JsonValue::Array(vec![JsonValue::UInt(1), JsonValue::Null, JsonValue::Bool(true)])),
        ("f".to_string(), JsonValue::Float("1.5".to_string())),
    ])
}

#[test]
fn json_text_is_valid_json() {
    let text = to_json_text(&sample_json());
    assert_eq!(text, "{\"name\":\"a\\\"b\\n\",\"n\":-3,\"list\":[1,null,true],\"f\":1.5}");
    let back: serde_json::Value = serde_json::from_str(&text).unwrap();
    assert_eq!(back["name"], "a\"b\n");
    assert_eq!(back["list"][0], 1);
    assert!(json_equal(&sample_json(), &sample_json()));
    assert!(!json_equal(&sample_json(), &JsonValue::Null));
    let ctl = to_json_text(&JsonValue::Str("\u{1}".to_string()));
    assert_eq!(ctl, "\"\\u0001\"");
}

#[test]
fn mcp_names_and_replies() {
    assert_eq!(qualify("my-server", "read.file"), "mcp_my_server_read_file");
    let listing = JsonValue::Object(vec![(
        "result".to_string(),
        JsonValue::Object(vec![(
            "tools".to_string(),
            JsonValue::Array(vec![
                JsonValue::Object(vec![
                    ("name".to_string(), JsonValue::Str("echo".to_string())),
                    ("description".to_string(), JsonValue::Str("Echo text".to_string())),
                ]),
                JsonValue::Object(vec![("description".to_string(), JsonValue::Str("no name".to_string()))]),
            ]),
        )]),
    )]);
    let tools = tools_from_listing("srv", &listing);
    assert_eq!(tools.len(), 1);
    assert_eq!(tools[0].qualified, "mcp_srv_echo");
    assert_eq!(tools[0].description, "Echo text");
    let mut hub = McpHub::empty();
    assert!(hub.is_empty());
    assert_eq!(hub.catalog_lines(), "");
    hub.add_server("srv".to_string(), tools);
    assert!(!hub.is_empty());
    assert!(hub.is_mcp_tool("mcp_srv_echo"));
    assert!(!hub.is_mcp_tool("mcp_srv_other"));
    assert_eq!(hub.find_tool("mcp_srv_echo"), Some((0, 0)));
    assert_eq!(hub.catalog_lines(), "MCP tools (plugins):\n- mcp_srv_echo — Echo text\n");
    assert_eq!(hub.summary(), "srv (1 tools)");
    let specs = hub.ollama_specs();
    assert_eq!(specs[0].function.description, "[MCP:srv] Echo text");
    let reply = JsonValue::Object(vec![(
        "result".to_string(),
        JsonValue::Object(vec![(
            "content".to_string(),
            JsonValue::Array(vec![
                JsonValue::Object(vec![("text".to_string(), JsonValue::Str("one".to_string()))]),
                JsonValue::Object(vec![("text".to_string(), JsonValue::Str("two".to_string()))]),
            ]),
        )]),
    )]);
    assert_eq!(call_result_text(&reply).unwrap(), "one\ntwo");
    let err = JsonValue::Object(vec![("error".to_string(), JsonValue::Str("bad".to_string()))]);
    assert_eq!(call_result_text(&err).unwrap_err().message, "MCP tool error: \"bad\"");
    let req = call_request(7, "echo", &JsonValue::empty_object());
    let text = to_json_text(&req);
    let v: serde_json::Value = serde_json::from_str(&text).unwrap();
    assert_eq!(v["jsonrpc"], "2.0");
    assert_eq!(v["id"], 7);
    assert_eq!(v["method"], "tools/call");
    assert_eq!(v["params"]["name"], "echo");
    let info = McpToolInfo {
        server: "s".to_string(),
        name: "t".to_string(),
        qualified: "mcp_s_t".to_string(),
        description: String::new(),
        input_schema: JsonValue::Null,
    };
    assert_eq!(info.duplicate().qualified, "mcp_s_t");
}

#[test]
fn offered_tools_by_mode() {
    let plan = ollama_tool_specs(SessionMode::Plan);
    let ask = ollama_tool_specs(SessionMode::Ask);
    assert!(plan.len() < ask.len());
    assert!(plan.iter().all(|s| s.function.name != "write_file"));
    assert!(ask.iter().any(|s| s.function.name == "write_file"));
    assert!(ask.iter().all(|s| s.type_ == "function"));
}

#[test]
fn repo_map_ranks_paths() {
    let important = vec!["README.md".to_string(), "Cargo.toml".to_string()];
    let collected = vec![
        "src/main.rs".to_string(),
        "src/parser.rs".to_string(),
        "tests/parser_test.rs".to_string(),
        "README.md".to_string(),
    ];
    let map = build_repo_map(&important, &collected, "fix the Parser").unwrap();
    assert!(map.starts_with("Repo map (ranked paths):\n"));
    let lines: Vec<&str> = map.lines().collect();
    assert_eq!(lines[1], " 1. [25] Cargo.toml");
    assert_eq!(lines[2], " 2. [25] README.md");
    assert!(map.contains("[8] src/parser.rs"));
    assert!(map.contains("[6] tests/parser_test.rs"));
    assert_eq!(query_tokens("Fix the parser!"), vec!["fix", "the", "parser"]);
}

#[test]
fn project_scan() {
    let mut present = vec![false; 9];
    present[0] = true;
    present[8] = true;
    let names = vec!["main.py".to_string(), "lib.rs".to_string(), "README".to_string()];
    let info = scan_project(&present, &names);
    assert_eq!(info.project_type, "rust");
    assert_eq!(info.languages, vec!["Rust", "Make", "Python"]);
    assert_eq!(info.key_files, vec!["Cargo.toml", "Makefile"]);
    assert_eq!(info.suggested_verify.as_deref(), Some("cargo test"));
    assert_eq!(info.summary, "type=rust; languages=Rust,Make,Python; key_files=Cargo.toml,Makefile");
    let empty = scan_project(&Vec::new(), &Vec::new());
    assert_eq!(empty.summary, "type=unknown; languages=unknown; key_files=(none)");
}

#[test]
fn stream_chunking_does_not_matter() {
    let text = "{\"a\":1}\n{\"b\":2}\n\n{\"c\":3}\npartial";
    let mut whole = LineBuffer::new();
    let all = whole.push(text);
    for cut in 0..text.len() {
        if !text.is_char_boundary(cut) {
            continue;
        }
        let mut b = LineBuffer::new();
        let mut got = b.push(&text[..cut]);
        got.extend(b.push(&text[cut..]));
        assert_eq!(got, all);
    }
    assert_eq!(all, vec!["{\"a\":1}", "{\"b\":2}", "{\"c\":3}"]);
}

#[test]
fn whole_file_config() {
    let mut project = Config::load(None, None, None, None);
    assert_eq!(project.max_steps, 16);
    project.model = "p".to_string();
    let global = Config::load(None, None, Some("g".to_string()), None);
    let c = Config::load(Some(global), Some(project), None, None);
    assert_eq!(c.model, "p");
    let c = Config::load(None, None, Some("env".to_string()), Some("http://x".to_string()));
    assert_eq!(c.model, "env");
    assert_eq!(c.ollama_host, "http://x");
}

#[test]
fn overlay_applied_twice_is_applied_once() {
    let make = || {
        let mut o = ConfigOverlay::empty();
        set_key(&mut o, "max_steps", "7").unwrap();
        set_key(&mut o, "keep_alive", "5m").unwrap();
        o
    };
    let mut c = Config::load(None, None, None, None);
    c.apply_overlay(make());
    let once = (c.max_steps, c.keep_alive.clone(), c.model.clone());
    c.apply_overlay(make());
    assert_eq!((c.max_steps, c.keep_alive.clone(), c.model.clone()), once);
    assert_eq!(once.0, 7);
    c.apply_overlay(ConfigOverlay::empty());
    assert_eq!(c.max_steps, 7);
}

#[test]
fn fingerprint_is_its_own_fingerprint() {
    let mut s = String::from("warning: unused\n\n");
    for i in 0..25 {
        s.push_str(&format!("error[E{i}]: failed\r\n   \n"));
    }
    let f = fingerprint(&s);
    assert_eq!(f.lines().count(), 20);
    assert!(f.starts_with("error[E0]: failed\nerror[E1]: failed\n"));
    assert_eq!(fingerprint(&f), f);
    let g = fingerprint("a\r\r\nb");
    assert_eq!(g, "a\r\nb");
    assert_eq!(fingerprint(&g), "a\nb");
}
