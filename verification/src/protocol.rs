//! The agent's JSON action protocol: tool calls, their classes, and reading a reply.
use vstd::prelude::*;

use crate::config::{parse_unsigned, parse_u64, SessionMode};
use crate::json::{json_get, json_get_str, json_i64, json_str, json_u64, Json, JsonValue, opt_json};
use crate::text::{occurs_at, 
    chars_of, contains_seq, eq_str, first_occ, find_first, owned, starts_with_seq, spec_to_lowercase,
    string_of_range, to_lowercase, trim, trim_bounds, trim_leading_newlines, trim_seq, contains,
};

verus! {

// ---------------------------------------------------------------------------
// Tool names
// ---------------------------------------------------------------------------

/// The tools that only read: offered in every mode.
pub open spec fn is_readonly_name(n: Seq<char>) -> bool {
    ||| n == "list_dir"@
    ||| n == "read_file"@
    ||| n == "grep"@
    ||| n == "find_files"@
    ||| n == "git_status"@
    ||| n == "git_diff"@
    ||| n == "update_todos"@
    ||| n == "remember"@
    ||| n == "spawn_subagents"@
}

/// The tools that change the workspace or the repository.
pub open spec fn is_mutating_name(n: Seq<char>) -> bool {
    ||| n == "write_file"@
    ||| n == "str_replace"@
    ||| n == "multi_str_replace"@
    ||| n == "delete_file"@
    ||| n == "run_shell"@
    ||| n == "git_add"@
    ||| n == "git_commit"@
    ||| n == "git_push"@
}

/// Whether `name` is one of the read-only tools.
pub fn readonly_name(name: &str) -> (r: bool)
    ensures
        r == is_readonly_name(name@),
{
    eq_str(name, "list_dir") || eq_str(name, "read_file") || eq_str(name, "grep") || eq_str(
        name,
        "find_files",
    ) || eq_str(name, "git_status") || eq_str(name, "git_diff") || eq_str(name, "update_todos")
        || eq_str(name, "remember") || eq_str(name, "spawn_subagents")
}

/// Whether the tool `name` mutates the workspace (`is_mutating`).
pub fn is_mutating(name: &str) -> (r: bool)
    ensures
        r == is_mutating_name(name@),
{
    eq_str(name, "write_file") || eq_str(name, "str_replace") || eq_str(name, "multi_str_replace")
        || eq_str(name, "delete_file") || eq_str(name, "run_shell") || eq_str(name, "git_add")
        || eq_str(name, "git_commit") || eq_str(name, "git_push")
}

/// The shell fragments that make a command dangerous, matched in lower case.
pub open spec fn is_dangerous_lower(l: Seq<char>) -> bool {
    ||| contains_seq(l, "rm -rf"@)
    ||| contains_seq(l, "rm -fr"@)
    ||| contains_seq(l, "mkfs"@)
    ||| contains_seq(l, "dd if="@)
    ||| contains_seq(l, ":(){"@)
    ||| contains_seq(l, "shutdown"@)
    ||| contains_seq(l, "reboot"@)
    ||| contains_seq(l, "sudo "@)
    ||| contains_seq(l, "git push --force"@)
    ||| contains_seq(l, "git push -f"@)
    ||| contains_seq(l, "curl "@)
    ||| contains_seq(l, "wget "@)
    ||| contains_seq(l, "| sh"@)
    ||| contains_seq(l, "|bash"@)
    ||| contains_seq(l, "> /dev/sd"@)
}

/// A command is dangerous when its lower case holds one of the dangerous fragments.
pub open spec fn is_dangerous_command(c: Seq<char>) -> bool {
    is_dangerous_lower(spec_to_lowercase(c))
}

/// Whether an already lower-cased command holds a dangerous fragment.
pub fn dangerous_lowercase(l: &str) -> (r: bool)
    ensures
        r == is_dangerous_lower(l@),
{
    contains(l, "rm -rf") || contains(l, "rm -fr") || contains(l, "mkfs") || contains(l, "dd if=")
        || contains(l, ":(){") || contains(l, "shutdown") || contains(l, "reboot") || contains(
        l,
        "sudo ",
    ) || contains(l, "git push --force") || contains(l, "git push -f") || contains(l, "curl ")
        || contains(l, "wget ") || contains(l, "| sh") || contains(l, "|bash") || contains(
        l,
        "> /dev/sd",
    )
}

/// Whether a shell command is dangerous: destructive, privileged, or fetching code.
pub fn is_dangerous_shell(command: &str) -> (r: bool)
    ensures
        r == is_dangerous_command(command@),
{
    let l = to_lowercase(command);
    dangerous_lowercase(l.as_str())
}

/// The tool list for the prompt: the read-only tools, then, outside plan mode, the rest.
pub const READ_TOOLS: &'static str = "- list_dir(path?)\n- read_file(path, start_line?, end_line?)\n- find_files(pattern)           # e.g. \"*.rs\" or \"main\"\n- grep(pattern, path?)\n- git_status()\n- git_diff()\n- update_todos(items: string[]) # live checklist for multi-step work\n- remember(fact)                # persist a project fact\n- spawn_subagents(goals: string[], max_steps?)  # run parallel plan-mode explorers\n";

/// The mutating tools of the prompt's tool list.
pub const WRITE_TOOLS: &'static str = "- write_file(path, content)\n- str_replace(path, old_string, new_string)\n- multi_str_replace(path, edits: [{old_string,new_string}, ...])\n- delete_file(path)\n- run_shell(command)\n- git_add(paths?)\n- git_commit(message)\n- git_push()\n";

/// The tool catalog offered in `mode`.
pub open spec fn catalog(mode: SessionMode) -> Seq<char> {
    if mode == SessionMode::Plan {
        READ_TOOLS@
    } else {
        READ_TOOLS@ + WRITE_TOOLS@
    }
}

/// The tool catalog for the prompt in `mode`.
pub fn tool_catalog(mode: SessionMode) -> (r: String)
    ensures
        r@ == catalog(mode),
{
    let mut tools = owned(READ_TOOLS);
    if mode != SessionMode::Plan {
        tools.append(WRITE_TOOLS);
    }
    tools
}

// ---------------------------------------------------------------------------
// Tool calls
// ---------------------------------------------------------------------------

/// A request to run a named tool with JSON arguments.
#[derive(Debug)]
pub struct ToolCall {
    pub name: String,
    pub args: JsonValue,
}

/// The argument `key` of a call, as a string.
pub open spec fn arg_str_of(args: Json, key: Seq<char>) -> Option<Seq<char>> {
    json_get_str(args, key)
}

/// The argument `key` of a call, as an unsigned integer: a non-negative integer; a negative
/// integer taken modulo 2^64; or a string that parses as one.
pub open spec fn arg_u64_of(args: Json, key: Seq<char>) -> Option<u64> {
    match json_get(args, key) {
        Some(v) => match json_u64(v) {
            Some(n) => Some(n),
            None => match json_i64(v) {
                Some(i) => Some(i as u64),
                None => match json_str(v) {
                    Some(s) => match parse_unsigned(s, u64::MAX as nat) {
                        Some(n) => Some(n as u64),
                        None => None,
                    },
                    None => None,
                },
            },
        },
        None => None,
    }
}

/// A call must be confirmed even in auto mode: deleting, pushing, or a dangerous shell command.
pub open spec fn is_destructive_call(name: Seq<char>, args: Json) -> bool {
    ||| name == "delete_file"@
    ||| name == "git_push"@
    ||| (name == "run_shell"@ && match arg_str_of(args, "command"@) {
        Some(c) => is_dangerous_command(c),
        None => match arg_str_of(args, "cmd"@) {
            Some(c) => is_dangerous_command(c),
            None => false,
        },
    })
}

/// A call may run in `mode`: in plan mode only the read-only tools.
pub open spec fn allowed_in_mode(name: Seq<char>, mode: SessionMode) -> bool {
    match mode {
        SessionMode::Plan => is_readonly_name(name),
        _ => true,
    }
}

impl ToolCall {
    /// A copy of this call.
    pub fn duplicate(&self) -> (r: ToolCall)
        ensures
            r.name@ == self.name@,
            r.args@ == self.args@,
    {
        ToolCall { name: self.name.clone(), args: self.args.duplicate() }
    }

    /// Whether the tool only reads.
    pub fn is_readonly(&self) -> (r: bool)
        ensures
            r == is_readonly_name(self.name@),
    {
        readonly_name(self.name.as_str())
    }

    /// Whether the call must always be confirmed, even in auto mode.
    pub fn is_destructive(&self) -> (r: bool)
        ensures
            r == is_destructive_call(self.name@, self.args@),
    {
        if eq_str(self.name.as_str(), "delete_file") || eq_str(self.name.as_str(), "git_push") {
            return true;
        }
        if !eq_str(self.name.as_str(), "run_shell") {
            return false;
        }
        match self.arg_str("command") {
            Some(c) => is_dangerous_shell(c.as_str()),
            None => match self.arg_str("cmd") {
                Some(c) => is_dangerous_shell(c.as_str()),
                None => false,
            },
        }
    }

    /// Whether the call may run in `mode`.
    pub fn allowed_in(&self, mode: SessionMode) -> (r: bool)
        ensures
            r == allowed_in_mode(self.name@, mode),
    {
        match mode {
            SessionMode::Plan => self.is_readonly(),
            SessionMode::Ask | SessionMode::Auto => true,
        }
    }

    /// The argument `key` as a string.
    pub fn arg_str(&self, key: &str) -> (r: Option<String>)
        ensures
            opt_str_view(r) == arg_str_of(self.args@, key@),
    {
        match self.args.get(key) {
            Some(v) => match v.as_str() {
                Some(s) => Some(s.clone()),
                None => None,
            },
            None => None,
        }
    }

    /// The argument `key` as an unsigned integer.
    pub fn arg_u64(&self, key: &str) -> (r: Option<u64>)
        ensures
            r == arg_u64_of(self.args@, key@),
    {
        match self.args.get(key) {
            Some(v) => match v.as_u64() {
                Some(n) => Some(n),
                None => match v.as_i64() {
                    Some(i) => Some(i as u64),
                    None => match v.as_str() {
                        Some(s) => parse_u64(s.as_str()),
                        None => None,
                    },
                },
            },
            None => None,
        }
    }
}

/// The view of an optional string.
pub open spec fn opt_str_view(o: Option<String>) -> Option<Seq<char>> {
    match o {
        Some(s) => Some(s@),
        None => None,
    }
}

/// Plan mode offers only read-only tools, and no read-only tool mutates.
pub proof fn law_plan_mode_is_read_only(name: Seq<char>)
    ensures
        allowed_in_mode(name, SessionMode::Plan) ==> !is_mutating_name(name),
        is_readonly_name(name) ==> !is_mutating_name(name),
{
    broadcast use vstd::string::group_string_axioms;

    reveal_strlit("list_dir");
    reveal_strlit("read_file");
    reveal_strlit("grep");
    reveal_strlit("find_files");
    reveal_strlit("git_status");
    reveal_strlit("git_diff");
    reveal_strlit("update_todos");
    reveal_strlit("remember");
    reveal_strlit("spawn_subagents");
    reveal_strlit("write_file");
    reveal_strlit("str_replace");
    reveal_strlit("multi_str_replace");
    reveal_strlit("delete_file");
    reveal_strlit("run_shell");
    reveal_strlit("git_add");
    reveal_strlit("git_commit");
    reveal_strlit("git_push");
    assert("list_dir"@.len() == 8);
    assert("read_file"@.len() == 9);
    assert("grep"@.len() == 4);
    assert("find_files"@.len() == 10);
    assert("git_status"@.len() == 10);
    assert("git_diff"@.len() == 8);
    assert("update_todos"@.len() == 12);
    assert("remember"@.len() == 8);
    assert("spawn_subagents"@.len() == 15);
    assert("write_file"@.len() == 10);
    assert("str_replace"@.len() == 11);
    assert("multi_str_replace"@.len() == 17);
    assert("delete_file"@.len() == 11);
    assert("run_shell"@.len() == 9);
    assert("git_add"@.len() == 7);
    assert("git_commit"@.len() == 10);
    assert("git_push"@.len() == 8);
    assert("list_dir"@[0] != "git_push"@[0]);
    assert("git_diff"@[4] != "git_push"@[4]);
    assert("remember"@[0] != "git_push"@[0]);
    assert("read_file"@[1] != "run_shell"@[1]);
    assert("find_files"@[0] != "write_file"@[0]);
    assert("find_files"@[0] != "git_commit"@[0]);
    assert("git_status"@[0] != "write_file"@[0]);
    assert("git_status"@[4] != "git_commit"@[4]);
    assert(!is_mutating_name("list_dir"@));
    assert(!is_mutating_name("read_file"@));
    assert(!is_mutating_name("grep"@));
    assert(!is_mutating_name("find_files"@));
    assert(!is_mutating_name("git_status"@));
    assert(!is_mutating_name("git_diff"@));
    assert(!is_mutating_name("update_todos"@));
    assert(!is_mutating_name("remember"@));
    assert(!is_mutating_name("spawn_subagents"@));
}

/// Destructive calls are never read-only ones.
pub proof fn law_destructive_not_readonly(name: Seq<char>, args: Json)
    ensures
        is_destructive_call(name, args) ==> !is_readonly_name(name),
{
    broadcast use vstd::string::group_string_axioms;

    reveal_strlit("list_dir");
    reveal_strlit("read_file");
    reveal_strlit("grep");
    reveal_strlit("find_files");
    reveal_strlit("git_status");
    reveal_strlit("git_diff");
    reveal_strlit("update_todos");
    reveal_strlit("remember");
    reveal_strlit("spawn_subagents");
    reveal_strlit("delete_file");
    reveal_strlit("run_shell");
    reveal_strlit("git_push");
    assert("list_dir"@.len() == 8);
    assert("read_file"@.len() == 9);
    assert("grep"@.len() == 4);
    assert("find_files"@.len() == 10);
    assert("git_status"@.len() == 10);
    assert("git_diff"@.len() == 8);
    assert("update_todos"@.len() == 12);
    assert("remember"@.len() == 8);
    assert("spawn_subagents"@.len() == 15);
    assert("delete_file"@.len() == 11);
    assert("run_shell"@.len() == 9);
    assert("git_push"@.len() == 8);
    assert("read_file"@[1] != "run_shell"@[1]);
    assert("list_dir"@[0] != "git_push"@[0]);
    assert("git_diff"@[4] != "git_push"@[4]);
    assert("remember"@[0] != "git_push"@[0]);
    assert(!is_readonly_name("delete_file"@));
    assert(!is_readonly_name("run_shell"@));
    assert(!is_readonly_name("git_push"@));
}

/// The plan-mode catalog is the start of every other mode's catalog.
pub proof fn law_catalog_plan_prefix(mode: SessionMode)
    ensures
        catalog(mode).take(READ_TOOLS@.len() as int) == catalog(SessionMode::Plan),
{
    if mode != SessionMode::Plan {
        assert((READ_TOOLS@ + WRITE_TOOLS@).take(READ_TOOLS@.len() as int) =~= READ_TOOLS@);
    } else {
        assert(READ_TOOLS@.take(READ_TOOLS@.len() as int) =~= READ_TOOLS@);
    }
}

/// The start of a tool's line in the catalog: `- name(`.
pub open spec fn tool_line_start(name: Seq<char>) -> Seq<char> {
    "- "@ + name + "("@
}

/// The tools that only read, as the catalog lists them.
pub open spec fn read_tool_names() -> Seq<Seq<char>> {
    seq!["list_dir"@, "read_file"@, "find_files"@, "grep"@, "git_status"@, "git_diff"@, "update_todos"@, "remember"@, "spawn_subagents"@]
}

/// The tools that change the workspace or the repository, as the catalog lists them.
pub open spec fn write_tool_names() -> Seq<Seq<char>> {
    seq!["write_file"@, "str_replace"@, "multi_str_replace"@, "delete_file"@, "run_shell"@, "git_add"@, "git_commit"@, "git_push"@]
}

/// `p` is found in `s` at `i`, compared from its `k`-th character on.
pub open spec fn found_from(s: Seq<char>, p: Seq<char>, i: int, k: int) -> bool
    decreases p.len() - k,
{
    if k < 0 || k >= p.len() {
        true
    } else {
        i + k < s.len() && s[i + k] == p[k] && found_from(s, p, i, k + 1)
    }
}

/// `p` is found nowhere in `s` from `i` on, tried one position at a time.
pub open spec fn absent_from(s: Seq<char>, p: Seq<char>, i: int) -> bool
    decreases s.len() - i,
{
    if i < 0 || i >= s.len() {
        true
    } else {
        !found_from(s, p, i, 0) && absent_from(s, p, i + 1)
    }
}

proof fn lemma_found_from(s: Seq<char>, p: Seq<char>, i: int, k: int)
    requires
        0 <= k <= p.len(),
        occurs_at(s, p, i),
    ensures
        found_from(s, p, i, k),
    decreases p.len() - k,
{
    if k < p.len() {
        assert(s[i + k] == s.subrange(i, i + p.len())[k]);
        lemma_found_from(s, p, i, k + 1);
    }
}

proof fn lemma_absent_from(s: Seq<char>, p: Seq<char>, i: int)
    requires
        0 <= i,
        p.len() > 0,
        absent_from(s, p, i),
    ensures
        forall|j: int| i <= j ==> !occurs_at(s, p, j),
    decreases s.len() - i,
{
    if i < s.len() {
        lemma_absent_from(s, p, i + 1);
        if occurs_at(s, p, i) {
            lemma_found_from(s, p, i, 0);
        }
    }
}

/// A tool line found in the read-only part is in every mode's catalog.
proof fn lemma_read_line(mode: SessionMode, name: Seq<char>, pos: int)
    requires
        0 <= pos,
        pos + tool_line_start(name).len() <= READ_TOOLS@.len(),
        READ_TOOLS@.subrange(pos, pos + tool_line_start(name).len()) == tool_line_start(name),
    ensures
        contains_seq(catalog(mode), tool_line_start(name)),
{
    let p = tool_line_start(name);
    if mode != SessionMode::Plan {
        let c = READ_TOOLS@ + WRITE_TOOLS@;
        assert(c.subrange(pos, pos + p.len()) =~= READ_TOOLS@.subrange(pos, pos + p.len()));
    }
    assert(occurs_at(catalog(mode), p, pos));
}

/// A tool line found in the writing part, and nowhere in the read-only part, is in the
/// catalog of every mode but plan mode.
proof fn lemma_write_line(mode: SessionMode, name: Seq<char>, pos: int)
    requires
        0 <= pos,
        pos + tool_line_start(name).len() <= WRITE_TOOLS@.len(),
        WRITE_TOOLS@.subrange(pos, pos + tool_line_start(name).len()) == tool_line_start(name),
        absent_from(READ_TOOLS@, tool_line_start(name), 0),
    ensures
        contains_seq(catalog(mode), tool_line_start(name)) <==> mode != SessionMode::Plan,
{
    let p = tool_line_start(name);
    reveal_strlit("- ");
    reveal_strlit("(");
    lemma_absent_from(READ_TOOLS@, p, 0);
    if mode != SessionMode::Plan {
        let c = READ_TOOLS@ + WRITE_TOOLS@;
        let q = READ_TOOLS@.len() + pos;
        assert(c.subrange(q, q + p.len()) =~= WRITE_TOOLS@.subrange(pos, pos + p.len()));
        assert(occurs_at(catalog(mode), p, q));
    } else {
        assert(!contains_seq(catalog(mode), p)) by {
            if contains_seq(catalog(mode), p) {
                let j = choose|j: int| occurs_at(catalog(mode), p, j);
                assert(!occurs_at(READ_TOOLS@, p, j));
            }
        }
    }
}

/// None of the tools that write has its line in the read-only part of the catalog.
#[verifier::rlimit(100)]
proof fn lemma_absent_in_read_tools(p: Seq<char>)
    requires
        p == "- write_file("@ || p == "- str_replace("@ || p == "- multi_str_replace("@ || p
            == "- delete_file("@ || p == "- run_shell("@ || p == "- git_add("@ || p
            == "- git_commit("@ || p == "- git_push("@,
    ensures
        absent_from(READ_TOOLS@, p, 0),
{
    reveal_strlit("- list_dir(path?)\n- read_file(path, start_line?, end_line?)\n- find_files(pattern)           # e.g. \"*.rs\" or \"main\"\n- grep(pattern, path?)\n- git_status()\n- git_diff()\n- update_todos(items: string[]) # live checklist for multi-step work\n- remember(fact)                # persist a project fact\n- spawn_subagents(goals: string[], max_steps?)  # run parallel plan-mode explorers\n");
    reveal_strlit("- write_file(");
    reveal_strlit("- str_replace(");
    reveal_strlit("- multi_str_replace(");
    reveal_strlit("- delete_file(");
    reveal_strlit("- run_shell(");
    reveal_strlit("- git_add(");
    reveal_strlit("- git_commit(");
    reveal_strlit("- git_push(");
    assert(absent_from(READ_TOOLS@, p, 360)) by {
        reveal_with_fuel(absent_from, 41);
        reveal_with_fuel(found_from, 24);
    }
    assert(absent_from(READ_TOOLS@, p, 320)) by {
        reveal_with_fuel(absent_from, 41);
        reveal_with_fuel(found_from, 24);
    }
    assert(absent_from(READ_TOOLS@, p, 280)) by {
        reveal_with_fuel(absent_from, 41);
        reveal_with_fuel(found_from, 24);
    }
    assert(absent_from(READ_TOOLS@, p, 240)) by {
        reveal_with_fuel(absent_from, 41);
        reveal_with_fuel(found_from, 24);
    }
    assert(absent_from(READ_TOOLS@, p, 200)) by {
        reveal_with_fuel(absent_from, 41);
        reveal_with_fuel(found_from, 24);
    }
    assert(absent_from(READ_TOOLS@, p, 160)) by {
        reveal_with_fuel(absent_from, 41);
        reveal_with_fuel(found_from, 24);
    }
    assert(absent_from(READ_TOOLS@, p, 120)) by {
        reveal_with_fuel(absent_from, 41);
        reveal_with_fuel(found_from, 24);
    }
    assert(absent_from(READ_TOOLS@, p, 80)) by {
        reveal_with_fuel(absent_from, 41);
        reveal_with_fuel(found_from, 24);
    }
    assert(absent_from(READ_TOOLS@, p, 40)) by {
        reveal_with_fuel(absent_from, 41);
        reveal_with_fuel(found_from, 24);
    }
    assert(absent_from(READ_TOOLS@, p, 0)) by {
        reveal_with_fuel(absent_from, 41);
        reveal_with_fuel(found_from, 24);
    }
}

/// Every mode's catalog lists each read-only tool; each tool that writes is listed in every
/// mode but plan mode, and its line is nowhere in the plan-mode catalog.
pub proof fn law_catalog_tools(mode: SessionMode)
    ensures
        forall|k: int|
            0 <= k < read_tool_names().len() ==> contains_seq(
                catalog(mode),
                tool_line_start(#[trigger] read_tool_names()[k]),
            ),
        forall|k: int|
            0 <= k < write_tool_names().len() ==> (contains_seq(
                catalog(mode),
                tool_line_start(#[trigger] write_tool_names()[k]),
            ) <==> mode != SessionMode::Plan),
{
    reveal_strlit("- list_dir(path?)\n- read_file(path, start_line?, end_line?)\n- find_files(pattern)           # e.g. \"*.rs\" or \"main\"\n- grep(pattern, path?)\n- git_status()\n- git_diff()\n- update_todos(items: string[]) # live checklist for multi-step work\n- remember(fact)                # persist a project fact\n- spawn_subagents(goals: string[], max_steps?)  # run parallel plan-mode explorers\n");
    reveal_strlit("- write_file(path, content)\n- str_replace(path, old_string, new_string)\n- multi_str_replace(path, edits: [{old_string,new_string}, ...])\n- delete_file(path)\n- run_shell(command)\n- git_add(paths?)\n- git_commit(message)\n- git_push()\n");
    reveal_strlit("- ");
    reveal_strlit("(");
    reveal_strlit("list_dir");
    reveal_strlit("read_file");
    reveal_strlit("find_files");
    reveal_strlit("grep");
    reveal_strlit("git_status");
    reveal_strlit("git_diff");
    reveal_strlit("update_todos");
    reveal_strlit("remember");
    reveal_strlit("spawn_subagents");
    reveal_strlit("write_file");
    reveal_strlit("str_replace");
    reveal_strlit("multi_str_replace");
    reveal_strlit("delete_file");
    reveal_strlit("run_shell");
    reveal_strlit("git_add");
    reveal_strlit("git_commit");
    reveal_strlit("git_push");
    assert(READ_TOOLS@.subrange(0, 11) =~= tool_line_start("list_dir"@));
    lemma_read_line(mode, "list_dir"@, 0);
    assert(READ_TOOLS@.subrange(18, 30) =~= tool_line_start("read_file"@));
    lemma_read_line(mode, "read_file"@, 18);
    assert(READ_TOOLS@.subrange(60, 73) =~= tool_line_start("find_files"@));
    lemma_read_line(mode, "find_files"@, 60);
    assert(READ_TOOLS@.subrange(116, 123) =~= tool_line_start("grep"@));
    lemma_read_line(mode, "grep"@, 116);
    assert(READ_TOOLS@.subrange(139, 152) =~= tool_line_start("git_status"@));
    lemma_read_line(mode, "git_status"@, 139);
    assert(READ_TOOLS@.subrange(154, 165) =~= tool_line_start("git_diff"@));
    lemma_read_line(mode, "git_diff"@, 154);
    assert(READ_TOOLS@.subrange(167, 182) =~= tool_line_start("update_todos"@));
    lemma_read_line(mode, "update_todos"@, 167);
    assert(READ_TOOLS@.subrange(236, 247) =~= tool_line_start("remember"@));
    lemma_read_line(mode, "remember"@, 236);
    assert(READ_TOOLS@.subrange(293, 311) =~= tool_line_start("spawn_subagents"@));
    lemma_read_line(mode, "spawn_subagents"@, 293);
    assert(WRITE_TOOLS@.subrange(0, 13) =~= tool_line_start("write_file"@));
    reveal_strlit("- write_file(");
    assert(tool_line_start("write_file"@) =~= "- write_file("@);
    lemma_absent_in_read_tools("- write_file("@);
    lemma_write_line(mode, "write_file"@, 0);
    assert(WRITE_TOOLS@.subrange(28, 42) =~= tool_line_start("str_replace"@));
    reveal_strlit("- str_replace(");
    assert(tool_line_start("str_replace"@) =~= "- str_replace("@);
    lemma_absent_in_read_tools("- str_replace("@);
    lemma_write_line(mode, "str_replace"@, 28);
    assert(WRITE_TOOLS@.subrange(72, 92) =~= tool_line_start("multi_str_replace"@));
    reveal_strlit("- multi_str_replace(");
    assert(tool_line_start("multi_str_replace"@) =~= "- multi_str_replace("@);
    lemma_absent_in_read_tools("- multi_str_replace("@);
    lemma_write_line(mode, "multi_str_replace"@, 72);
    assert(WRITE_TOOLS@.subrange(137, 151) =~= tool_line_start("delete_file"@));
    reveal_strlit("- delete_file(");
    assert(tool_line_start("delete_file"@) =~= "- delete_file("@);
    lemma_absent_in_read_tools("- delete_file("@);
    lemma_write_line(mode, "delete_file"@, 137);
    assert(WRITE_TOOLS@.subrange(157, 169) =~= tool_line_start("run_shell"@));
    reveal_strlit("- run_shell(");
    assert(tool_line_start("run_shell"@) =~= "- run_shell("@);
    lemma_absent_in_read_tools("- run_shell("@);
    lemma_write_line(mode, "run_shell"@, 157);
    assert(WRITE_TOOLS@.subrange(178, 188) =~= tool_line_start("git_add"@));
    reveal_strlit("- git_add(");
    assert(tool_line_start("git_add"@) =~= "- git_add("@);
    lemma_absent_in_read_tools("- git_add("@);
    lemma_write_line(mode, "git_add"@, 178);
    assert(WRITE_TOOLS@.subrange(196, 209) =~= tool_line_start("git_commit"@));
    reveal_strlit("- git_commit(");
    assert(tool_line_start("git_commit"@) =~= "- git_commit("@);
    lemma_absent_in_read_tools("- git_commit("@);
    lemma_write_line(mode, "git_commit"@, 196);
    assert(WRITE_TOOLS@.subrange(218, 229) =~= tool_line_start("git_push"@));
    reveal_strlit("- git_push(");
    assert(tool_line_start("git_push"@) =~= "- git_push("@);
    lemma_absent_in_read_tools("- git_push("@);
    lemma_write_line(mode, "git_push"@, 218);
    assert forall|k: int| 0 <= k < read_tool_names().len() implies contains_seq(
        catalog(mode),
        tool_line_start(#[trigger] read_tool_names()[k]),
    ) by {
        if k == 0 {
            assert(read_tool_names()[k] == "list_dir"@);
        } else if k == 1 {
            assert(read_tool_names()[k] == "read_file"@);
        } else if k == 2 {
            assert(read_tool_names()[k] == "find_files"@);
        } else if k == 3 {
            assert(read_tool_names()[k] == "grep"@);
        } else if k == 4 {
            assert(read_tool_names()[k] == "git_status"@);
        } else if k == 5 {
            assert(read_tool_names()[k] == "git_diff"@);
        } else if k == 6 {
            assert(read_tool_names()[k] == "update_todos"@);
        } else if k == 7 {
            assert(read_tool_names()[k] == "remember"@);
        } else if k == 8 {
            assert(read_tool_names()[k] == "spawn_subagents"@);
        }
    }
    assert forall|k: int| 0 <= k < write_tool_names().len() implies (contains_seq(
        catalog(mode),
        tool_line_start(#[trigger] write_tool_names()[k]),
    ) <==> mode != SessionMode::Plan) by {
        if k == 0 {
            assert(write_tool_names()[k] == "write_file"@);
        } else if k == 1 {
            assert(write_tool_names()[k] == "str_replace"@);
        } else if k == 2 {
            assert(write_tool_names()[k] == "multi_str_replace"@);
        } else if k == 3 {
            assert(write_tool_names()[k] == "delete_file"@);
        } else if k == 4 {
            assert(write_tool_names()[k] == "run_shell"@);
        } else if k == 5 {
            assert(write_tool_names()[k] == "git_add"@);
        } else if k == 6 {
            assert(write_tool_names()[k] == "git_commit"@);
        } else if k == 7 {
            assert(write_tool_names()[k] == "git_push"@);
        }
    }
}

// ---------------------------------------------------------------------------
// Reading a reply
// ---------------------------------------------------------------------------

/// What the model asked for: a tool call, or a final answer.
#[derive(Debug)]
pub enum AgentAction {
    Tool(ToolCall),
    Final { message: String },
}

/// An action object as read field by field: `action` is required, the rest optional.
#[derive(Debug)]
pub struct RawAction {
    pub action: String,
    pub name: Option<String>,
    pub args: Option<JsonValue>,
    pub message: Option<String>,
    pub content: Option<String>,
    pub text: Option<String>,
}

/// A ```` ``` ```` fence.
pub open spec fn fence() -> Seq<char> {
    seq!['`', '`', '`']
}

/// The fenced object of a reply: after the first fence (and a `json` or `JSON` tag, and
/// newlines), up to the next fence, trimmed, when that starts with `{`.
pub open spec fn fenced_object(s: Seq<char>) -> Option<Seq<char>> {
    let i = first_occ(s, fence());
    if i < 0 {
        None
    } else {
        let a0 = s.skip(i + 3);
        let a1 = if starts_with_seq(a0, "json"@) {
            a0.skip(4)
        } else if starts_with_seq(a0, "JSON"@) {
            a0.skip(4)
        } else {
            a0
        };
        let a = trim_leading_newlines(a1);
        let e = first_occ(a, fence());
        if e < 0 {
            None
        } else {
            let block = trim_seq(a.take(e));
            if block.len() > 0 && block[0] == '{' {
                Some(block)
            } else {
                None
            }
        }
    }
}

/// The brace scanner's state after some characters: inside a string literal, after a
/// backslash there, the brace depth, and where the outermost object began.
pub struct ScanState {
    pub in_str: bool,
    pub escape: bool,
    pub depth: int,
    pub start: int,
}

/// One step of the scanner over the character at position `i`.
pub open spec fn scan_step(st: ScanState, c: char, i: int) -> ScanState {
    if st.in_str {
        if st.escape {
            ScanState { escape: false, ..st }
        } else if c == '\\' {
            ScanState { escape: true, ..st }
        } else if c == '"' {
            ScanState { in_str: false, ..st }
        } else {
            st
        }
    } else if c == '"' {
        ScanState { in_str: true, ..st }
    } else if c == '{' {
        ScanState { depth: st.depth + 1, start: if st.depth == 0 { i } else { st.start }, ..st }
    } else if c == '}' && st.depth > 0 {
        ScanState { depth: st.depth - 1, ..st }
    } else {
        st
    }
}

/// The scanner's state after the first `n` characters.
pub open spec fn scan_state(s: Seq<char>, n: int) -> ScanState
    decreases n,
{
    if n <= 0 {
        ScanState { in_str: false, escape: false, depth: 0, start: -1 }
    } else {
        scan_step(scan_state(s, n - 1), s[n - 1], n - 1)
    }
}

/// At position `i` the outermost object closes: a `}` outside strings at depth one.
pub open spec fn closes_at(s: Seq<char>, i: int) -> bool {
    let st = scan_state(s, i);
    0 <= i < s.len() && !st.in_str && s[i] == '}' && st.depth == 1
}

/// The first balanced `{...}` outside string literals, if one closes.
pub open spec fn scanned_object(s: Seq<char>) -> Option<Seq<char>> {
    if exists|i: int| closes_at(s, i) {
        let i = choose|i: int| closes_at(s, i) && forall|j: int| 0 <= j < i ==> !closes_at(s, j);
        Some(s.subrange(scan_state(s, i).start, i + 1))
    } else {
        None
    }
}

/// The JSON object text of a reply: the fenced object if there is one, else the first
/// balanced object outside string literals.
pub open spec fn json_object_of(s: Seq<char>) -> Option<Seq<char>> {
    match fenced_object(s) {
        Some(b) => Some(b),
        None => scanned_object(s),
    }
}

/// Finds the fenced object of a reply.
fn fenced(v: &Vec<char>) -> (r: Option<String>)
    ensures
        opt_str_view(r) == fenced_object(v@),
{
    let f = chars_of("```");
    proof {
        reveal_strlit("```");
        assert(f@ =~= fence());
        reveal_strlit("json");
        reveal_strlit("JSON");
    }
    let i = match find_first(v, &f) {
        Some(i) => i,
        None => return None,
    };
    proof {
        crate::text::lemma_first_occ(v@, fence());
        assert(occurs_at(v@, fence(), i as int));
        assert(i + 3 <= v@.len());
        assert(v.len() == v@.len());
    }
    let ghost a0 = v@.skip(i + 3);
    let mut k = i + 3;
    // Skip a `json` / `JSON` tag.
    if v.len() - k >= 4 && v[k] == 'j' && v[k + 1] == 's' && v[k + 2] == 'o' && v[k + 3] == 'n' {
        assert(a0.take(4) =~= "json"@);
        k = k + 4;
        assert(v@.skip(k as int) =~= a0.skip(4));
    } else if v.len() - k >= 4 && v[k] == 'J' && v[k + 1] == 'S' && v[k + 2] == 'O' && v[k + 3]
        == 'N' {
        assert(a0.take(4) =~= "JSON"@);
        proof {
            if starts_with_seq(a0, "json"@) {
                assert(a0.take(4)[0] == 'j');
            }
        }
        k = k + 4;
        assert(v@.skip(k as int) =~= a0.skip(4));
    } else {
        proof {
            if starts_with_seq(a0, "json"@) {
                assert(a0.take(4)[0] == 'j' && a0.take(4)[1] == 's' && a0.take(4)[2] == 'o'
                    && a0.take(4)[3] == 'n');
            }
            if starts_with_seq(a0, "JSON"@) {
                assert(a0.take(4)[0] == 'J' && a0.take(4)[1] == 'S' && a0.take(4)[2] == 'O'
                    && a0.take(4)[3] == 'N');
            }
        }
        assert(v@.skip(k as int) =~= a0);
    }
    let ghost a1 = v@.skip(k as int);
    // Skip newlines.
    while k < v.len() && v[k] == '\n'
        invariant
            k <= v.len(),
            trim_leading_newlines(a1) == trim_leading_newlines(v@.skip(k as int)),
        decreases v.len() - k,
    {
        assert(v@.skip(k as int).drop_first() =~= v@.skip(k + 1));
        k += 1;
    }
    let ghost a = v@.skip(k as int);
    proof {
        if a.len() > 0 {
            assert(a[0] == v@[k as int]);
        }
        assert(trim_leading_newlines(a) == a);
    }
    let rest = string_of_range(v, k, v.len());
    let rv = chars_of(rest.as_str());
    assert(rv@ =~= a);
    let e = match find_first(&rv, &f) {
        Some(e) => e,
        None => return None,
    };
    proof {
        crate::text::lemma_first_occ(a, fence());
    }
    let inner = string_of_range(&rv, 0, e);
    let iv = chars_of(inner.as_str());
    assert(iv@ =~= a.take(e as int));
    let (lo, hi) = trim_bounds(&iv);
    if lo < hi && iv[lo] == '{' {
        return Some(string_of_range(&iv, lo, hi));
    }
    None
}

/// Finds the first balanced object outside string literals.
fn scanned(v: &Vec<char>) -> (r: Option<String>)
    ensures
        opt_str_view(r) == scanned_object(v@),
{
    let mut in_str = false;
    let mut escape = false;
    let mut depth: usize = 0;
    let mut start: usize = 0;
    let mut i: usize = 0;
    while i < v.len()
        invariant
            i <= v.len(),
            ({
                let st = scan_state(v@, i as int);
                st.in_str == in_str && st.escape == escape && st.depth == depth as int && (depth > 0
                    ==> st.start == start as int && 0 <= start < i)
            }),
            depth <= i,
            forall|j: int| 0 <= j < i ==> !closes_at(v@, j),
        decreases v.len() - i,
    {
        let b = v[i];
        let ghost st = scan_state(v@, i as int);
        if in_str {
            if escape {
                escape = false;
            } else if b == '\\' {
                escape = true;
            } else if b == '"' {
                in_str = false;
            }
            proof {
                assert(!closes_at(v@, i as int));
            }
        } else if b == '"' {
            in_str = true;
        } else if b == '{' {
            if depth == 0 {
                start = i;
            }
            depth += 1;
        } else if b == '}' {
            if depth > 0 {
                depth -= 1;
                if depth == 0 {
                    proof {
                        assert(closes_at(v@, i as int));
                        let c = choose|c: int| closes_at(v@, c) && forall|j: int| 0 <= j < c ==> !closes_at(v@, j);
                        assert(c == i) by {
                            if c < i {
                            } else if c > i {
                                assert(!closes_at(v@, i as int));
                            }
                        }
                    }
                    return Some(string_of_range(v, start, i + 1));
                }
            }
        }
        proof {
            assert(scan_state(v@, i + 1) == scan_step(st, b, i as int));
        }
        i += 1;
    }
    proof {
        assert forall|j: int| !closes_at(v@, j) by {
            if 0 <= j < v@.len() {
            }
        }
    }
    None
}

/// The JSON object text of a model reply, if any (the text that is then parsed as JSON).
pub fn extract_json_object(s: &str) -> (r: Option<String>)
    ensures
        opt_str_view(r) == json_object_of(s@),
{
    let v = chars_of(s);
    match fenced(&v) {
        Some(b) => Some(b),
        None => scanned(&v),
    }
}

/// The verbs that ask for a tool.
pub open spec fn is_tool_verb(a: Seq<char>) -> bool {
    a == "tool"@ || a == "call"@ || a == "function"@
}

/// The verbs that finish.
pub open spec fn is_final_verb(a: Seq<char>) -> bool {
    a == "final"@ || a == "answer"@ || a == "done"@
}

/// The action a reply asks for, given the text of the reply, its action object read field by
/// field (`typed`) and read as any JSON value (`generic`), each where it could be read:
/// - a typed object with a tool verb and a `name` calls that tool (arguments default to `{}`);
/// - a typed object with a final verb finishes with `message`, `content` or `text`, or with the
///   reply trimmed;
/// - otherwise a value with a string `name` calls that tool with its `arguments`, `args` or
///   `parameters` (or `{}`), unless its `action` is exactly `final`;
/// - otherwise the reply, trimmed, is the final answer.
pub open spec fn action_of(
    raw: Seq<char>,
    typed: Option<(Seq<char>, Option<Seq<char>>, Option<Json>, Option<Seq<char>>, Option<Seq<char>>, Option<Seq<char>>)>,
    generic: Option<Json>,
) -> (bool, Seq<char>, Json) {
    let typed_result: Option<(bool, Seq<char>, Json)> = match typed {
        Some((action, name, args, message, content, text)) => {
            let a = spec_to_lowercase(action);
            if is_tool_verb(a) && name is Some {
                Some((true, name->0, match args { Some(x) => x, None => Json::Object(seq![]) }))
            } else if is_final_verb(a) {
                Some((false, match message {
                    Some(m) => m,
                    None => match content {
                        Some(c) => c,
                        None => match text {
                            Some(t) => t,
                            None => trim_seq(raw),
                        },
                    },
                }, Json::Null))
            } else {
                None
            }
        },
        None => None,
    };
    match typed_result {
        Some(r) => r,
        None => match generic {
            Some(v) if json_get_str(v, "name"@) is Some && json_get_str(v, "action"@) != Some(
                "final"@,
            ) => (true, json_get_str(v, "name"@)->0, match json_get(v, "arguments"@) {
                Some(x) => x,
                None => match json_get(v, "args"@) {
                    Some(x) => x,
                    None => match json_get(v, "parameters"@) {
                        Some(x) => x,
                        None => Json::Object(seq![]),
                    },
                },
            }),
            _ => (false, trim_seq(raw), Json::Null),
        },
    }
}

/// A typed action object with a finishing verb finishes with its `message`, failing that its
/// `content`, failing that its `text`, and failing all three the trimmed reply, whatever the
/// reply read as any JSON value holds.
pub proof fn law_final_message_fields(
    raw: Seq<char>,
    action: Seq<char>,
    name: Option<Seq<char>>,
    args: Option<Json>,
    message: Option<Seq<char>>,
    content: Option<Seq<char>>,
    text: Option<Seq<char>>,
    generic: Option<Json>,
)
    requires
        is_final_verb(spec_to_lowercase(action)),
    ensures
        ({
            let r = action_of(raw, Some((action, name, args, message, content, text)), generic);
            &&& !r.0
            &&& r.2 == Json::Null
            &&& message matches Some(m) ==> r.1 == m
            &&& message is None && content is Some ==> r.1 == content->0
            &&& message is None && content is None && text is Some ==> r.1 == text->0
            &&& message is None && content is None && text is None ==> r.1 == trim_seq(raw)
        }),
{
    reveal_strlit("tool");
    reveal_strlit("call");
    reveal_strlit("function");
    reveal_strlit("final");
    reveal_strlit("answer");
    reveal_strlit("done");
    let a = spec_to_lowercase(action);
    assert(!is_tool_verb(a)) by {
        if a == "tool"@ || a == "call"@ || a == "function"@ {
            assert(a[0] != "final"@[0] || a.len() != "final"@.len());
            assert(a[0] != "answer"@[0] || a.len() != "answer"@.len());
            assert(a[0] != "done"@[0] || a.len() != "done"@.len());
        }
    }
}

/// A typed action object with a tool verb and a tool name calls that tool, with its
/// arguments, or `{}` where it has none, whatever the reply read as any JSON value holds.
pub proof fn law_tool_action_fields(
    raw: Seq<char>,
    action: Seq<char>,
    name: Seq<char>,
    args: Option<Json>,
    message: Option<Seq<char>>,
    content: Option<Seq<char>>,
    text: Option<Seq<char>>,
    generic: Option<Json>,
)
    requires
        is_tool_verb(spec_to_lowercase(action)),
    ensures
        ({
            let r = action_of(raw, Some((action, Some(name), args, message, content, text)), generic);
            &&& r.0
            &&& r.1 == name
            &&& args matches Some(a) ==> r.2 == a
            &&& args is None ==> r.2 == Json::Object(seq![])
        }),
{
}

/// The field-by-field view of a read action object.
pub open spec fn raw_view(r: RawAction) -> (Seq<char>, Option<Seq<char>>, Option<Json>, Option<Seq<char>>, Option<Seq<char>>, Option<Seq<char>>) {
    (r.action@, opt_str_view(r.name), opt_json(r.args), opt_str_view(r.message), opt_str_view(r.content), opt_str_view(r.text))
}

/// The view of an optional read action object.
pub open spec fn opt_raw_view(r: Option<RawAction>) -> Option<(Seq<char>, Option<Seq<char>>, Option<Json>, Option<Seq<char>>, Option<Seq<char>>, Option<Seq<char>>)> {
    match r {
        Some(x) => Some(raw_view(x)),
        None => None,
    }
}

/// `a` is the action `(is_tool, name_or_message, args)`.
pub open spec fn action_is(a: AgentAction, v: (bool, Seq<char>, Json)) -> bool {
    match a {
        AgentAction::Tool(c) => v.0 && c.name@ == v.1 && c.args@ == v.2,
        AgentAction::Final { message } => !v.0 && message@ == v.1,
    }
}

/// Decides the action of a reply from its text and its action object as read (see `action_of`).
pub fn parse_action(raw: &str, typed: Option<RawAction>, generic: Option<JsonValue>) -> (r: AgentAction)
    ensures
        action_is(r, action_of(raw@, opt_raw_view(typed), opt_json(generic))),
{
    if let Some(parsed) = typed {
        let action = to_lowercase(parsed.action.as_str());
        let a = action.as_str();
        if eq_str(a, "tool") || eq_str(a, "call") || eq_str(a, "function") {
            if let Some(name) = parsed.name {
                let args = match parsed.args {
                    Some(x) => x,
                    None => JsonValue::empty_object(),
                };
                return AgentAction::Tool(ToolCall { name, args });
            }
        }
        if eq_str(a, "final") || eq_str(a, "answer") || eq_str(a, "done") {
            let message = match parsed.message {
                Some(m) => m,
                None => match parsed.content {
                    Some(c) => c,
                    None => match parsed.text {
                        Some(t) => t,
                        None => trim(raw),
                    },
                },
            };
            return AgentAction::Final { message };
        }
    }
    if let Some(v) = generic {
        let name_v = match v.get("name") {
            Some(n) => match n.as_str() {
                Some(s) => Some(s.clone()),
                None => None,
            },
            None => None,
        };
        if let Some(name) = name_v {
            let is_final = match v.get("action") {
                Some(a) => match a.as_str() {
                    Some(s) => eq_str(s.as_str(), "final"),
                    None => false,
                },
                None => false,
            };
            if !is_final {
                let args = match v.get("arguments") {
                    Some(x) => x.duplicate(),
                    None => match v.get("args") {
                        Some(x) => x.duplicate(),
                        None => match v.get("parameters") {
                            Some(x) => x.duplicate(),
                            None => JsonValue::empty_object(),
                        },
                    },
                };
                return AgentAction::Tool(ToolCall { name, args });
            }
        }
    }
    AgentAction::Final { message: trim(raw) }
}

} // verus!
