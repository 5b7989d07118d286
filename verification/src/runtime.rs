//! Tool dispatch: which calls need approval, reading a call's arguments into an operation,
//! the edit retry, and the events and results of a run.
use vstd::prelude::*;

use crate::config::{SessionMode, parse_unsigned};
use crate::json::{json_array, json_get, json_str, Json, JsonValue};
use crate::protocol::{
    allowed_in_mode, arg_str_of, arg_u64_of, is_destructive_call, is_readonly_name,
    is_dangerous_command, opt_str_view, ToolCall,
};
use crate::text::{
    blen, byte_len, chars_of, contains, contains_seq, eq_str, is_whitespace, is_ws, lines,
    lines_seq, owned, push_char, push_str, spec_to_lowercase, starts_with, starts_with_seq,
    to_lowercase, trim, trim_seq, views,
};

verus! {

// ---------------------------------------------------------------------------
// Approval
// ---------------------------------------------------------------------------

/// A call needs the user's approval: every plugin (`mcp_`) tool; no read-only tool; in plan
/// and ask mode every other tool; in auto mode only destructive calls.
pub open spec fn approval_needed(mode: SessionMode, name: Seq<char>, args: Json) -> bool {
    if starts_with_seq(name, "mcp_"@) {
        true
    } else if is_readonly_name(name) {
        false
    } else {
        match mode {
            SessionMode::Plan => true,
            SessionMode::Ask => true,
            SessionMode::Auto => is_destructive_call(name, args),
        }
    }
}

/// Whether running `call` in `mode` needs the user's approval.
pub fn needs_approval(mode: SessionMode, call: &ToolCall) -> (r: bool)
    ensures
        r == approval_needed(mode, call.name@, call.args@),
{
    if starts_with(call.name.as_str(), "mcp_") {
        return true;
    }
    if call.is_readonly() {
        return false;
    }
    match mode {
        SessionMode::Plan => true,
        SessionMode::Ask => true,
        SessionMode::Auto => call.is_destructive(),
    }
}

/// In ask mode every tool that is not read-only needs approval; in auto mode a read-only
/// tool needs none unless it is a plugin tool, while a destructive call still needs it.
pub proof fn law_ask_mode_confirms_mutations(name: Seq<char>, args: Json)
    ensures
        !is_readonly_name(name) ==> approval_needed(SessionMode::Ask, name, args),
        is_readonly_name(name) && !starts_with_seq(name, "mcp_"@) ==> !approval_needed(
            SessionMode::Auto,
            name,
            args,
        ),
        is_destructive_call(name, args) ==> approval_needed(SessionMode::Auto, name, args),
{
    reveal_strlit("delete_file");
    reveal_strlit("git_push");
    reveal_strlit("run_shell");
    reveal_strlit("mcp_");
    broadcast use vstd::string::group_string_axioms;

    if is_destructive_call(name, args) && !starts_with_seq(name, "mcp_"@) {
        assert(!is_readonly_name(name)) by {
            crate::protocol::law_destructive_not_readonly(name, args);
        }
    }
}

// ---------------------------------------------------------------------------
// Arguments
// ---------------------------------------------------------------------------

/// Why a tool call could not run, as told to the model.
#[derive(Debug)]
pub struct ToolError {
    pub message: String,
}

/// A tool error with a fixed message.
fn tool_error(msg: &str) -> (r: ToolError)
    ensures
        r.message@ == msg@,
{
    ToolError { message: owned(msg) }
}

/// The first present of the members `a` then `b`, as a string (a present member that is not a
/// string gives nothing).
pub open spec fn str_member_or(v: Json, a: Seq<char>, b: Seq<char>) -> Option<Seq<char>> {
    match json_get(v, a) {
        Some(x) => json_str(x),
        None => match json_get(v, b) {
            Some(x) => json_str(x),
            None => None,
        },
    }
}

/// The edits of a `multi_str_replace` call: `edits` must be an array whose every element has
/// `old_string` (or `old`) and `new_string` (or `new`) as strings.
pub open spec fn edits_of(args: Json) -> Option<Seq<(Seq<char>, Seq<char>)>> {
    match json_get(args, "edits"@) {
        Some(Json::Array(items)) => edits_of_items(items, items.len() as int),
        _ => None,
    }
}

/// The edits of the first `n` items, if each is well formed.
pub open spec fn edits_of_items(items: Seq<Json>, n: int) -> Option<Seq<(Seq<char>, Seq<char>)>>
    decreases n,
{
    if n <= 0 {
        Some(seq![])
    } else {
        match edits_of_items(items, n - 1) {
            Some(prev) => match (
                str_member_or(items[n - 1], "old_string"@, "old"@),
                str_member_or(items[n - 1], "new_string"@, "new"@),
            ) {
                (Some(o), Some(w)) => Some(prev.push((o, w))),
                _ => None,
            },
            None => None,
        }
    }
}

/// `v.get(a).or_else(|| v.get(b)).and_then(as_str)`, computed.
fn get_str_or(v: &JsonValue, a: &str, b: &str) -> (r: Option<String>)
    ensures
        opt_str_view(r) == str_member_or(v@, a@, b@),
{
    let x = match v.get(a) {
        Some(x) => Some(x),
        None => v.get(b),
    };
    match x {
        Some(x) => match x.as_str() {
            Some(s) => Some(s.clone()),
            None => None,
        },
        None => None,
    }
}

/// The `(old, new)` pairs of a `multi_str_replace` call.
pub fn parse_edits(args: &JsonValue) -> (r: Result<Vec<(String, String)>, ToolError>)
    ensures
        match r {
            Ok(e) => edits_of(args@) == Some(pairs_view(e@)),
            Err(err) => edits_of(args@) is None && edit_error(args@) == err.message@,
        },
{
    let arr = match args.get("edits") {
        Some(e) => match e.as_array() {
            Some(a) => a,
            None => {
                return Err(tool_error("multi_str_replace requires edits[]"));
            },
        },
        None => {
            return Err(tool_error("multi_str_replace requires edits[]"));
        },
    };
    let ghost items = Seq::new(arr@.len(), |i: int| arr@[i]@);
    proof {
        assert(edits_of_items(items, 0) == Some(Seq::<(Seq<char>, Seq<char>)>::empty()));
    }
    let mut out: Vec<(String, String)> = Vec::new();
    let mut i: usize = 0;
    while i < arr.len()
        invariant
            i <= arr@.len(),
            items == Seq::new(arr@.len(), |i: int| arr@[i]@),
            json_get(args@, "edits"@) == Some(Json::Array(items)),
            edits_of_items(items, i as int) == Some(pairs_view(out@)),
        decreases arr@.len() - i,
    {
        let old = match get_str_or(&arr[i], "old_string", "old") {
            Some(o) => o,
            None => {
                proof {
                    lemma_edits_prefix_none(items, i + 1, arr@.len() as int);
                }
                return Err(tool_error("edit missing old_string"));
            },
        };
        let new = match get_str_or(&arr[i], "new_string", "new") {
            Some(n) => n,
            None => {
                proof {
                    lemma_edits_prefix_none(items, i + 1, arr@.len() as int);
                }
                return Err(tool_error("edit missing new_string"));
            },
        };
        let ghost before = out@;
        out.push((old, new));
        proof {
            assert(pairs_view(out@) =~= pairs_view(before).push((old@, new@)));
        }
        i += 1;
    }
    Ok(out)
}

/// The views of `(old, new)` pairs.
pub open spec fn pairs_view(e: Seq<(String, String)>) -> Seq<(Seq<char>, Seq<char>)> {
    Seq::new(e.len(), |i: int| (e[i].0@, e[i].1@))
}

/// The message of a malformed `edits` argument: for the first bad edit, the part it misses.
pub open spec fn edit_error(args: Json) -> Seq<char> {
    match json_get(args, "edits"@) {
        Some(Json::Array(items)) => edit_error_items(items, items.len() as int),
        _ => "multi_str_replace requires edits[]"@,
    }
}

/// The message for the first malformed item among the first `n`.
pub open spec fn edit_error_items(items: Seq<Json>, n: int) -> Seq<char>
    decreases n,
{
    if n <= 0 {
        seq![]
    } else if edits_of_items(items, n - 1) is None {
        edit_error_items(items, n - 1)
    } else if str_member_or(items[n - 1], "old_string"@, "old"@) is None {
        "edit missing old_string"@
    } else {
        "edit missing new_string"@
    }
}

/// Once a prefix of the items is malformed, so is every longer prefix.
proof fn lemma_edits_prefix_none(items: Seq<Json>, n: int, m: int)
    requires
        0 <= n <= m,
        edits_of_items(items, n) is None,
    ensures
        edits_of_items(items, m) is None,
        edit_error_items(items, m) == edit_error_items(items, n),
    decreases m - n,
{
    if n < m {
        lemma_edits_prefix_none(items, n, m - 1);
    }
}

/// The strings among `items`, in order.
pub open spec fn strings_in(items: Seq<Json>) -> Seq<Seq<char>>
    decreases items.len(),
{
    if items.len() == 0 {
        seq![]
    } else {
        match json_str(items.last()) {
            Some(s) => strings_in(items.drop_last()).push(s),
            None => strings_in(items.drop_last()),
        }
    }
}

/// The non-empty trimmed lines of `s`.
pub open spec fn nonempty_trimmed(ls: Seq<Seq<char>>) -> Seq<Seq<char>>
    decreases ls.len(),
{
    if ls.len() == 0 {
        seq![]
    } else {
        let t = trim_seq(ls.last());
        if t.len() > 0 {
            nonempty_trimmed(ls.drop_last()).push(t)
        } else {
            nonempty_trimmed(ls.drop_last())
        }
    }
}

/// The items of an `update_todos` call: the strings of an `items` array, or the non-empty
/// trimmed lines of an `items` string.
pub open spec fn todo_items_of(args: Json) -> Option<Seq<Seq<char>>> {
    match json_get(args, "items"@) {
        Some(Json::Array(a)) => Some(strings_in(a)),
        Some(Json::Str(s)) => Some(nonempty_trimmed(lines_seq(s))),
        _ => None,
    }
}

/// The items of an `update_todos` call.
pub fn parse_todo_items(args: &JsonValue) -> (r: Result<Vec<String>, ToolError>)
    ensures
        match r {
            Ok(v) => todo_items_of(args@) == Some(views(v@)),
            Err(err) => todo_items_of(args@) is None && err.message@ == "update_todos requires items"@,
        },
{
    let items = match args.get("items") {
        Some(x) => x,
        None => return Err(tool_error("update_todos requires items")),
    };
    if let Some(arr) = items.as_array() {
        let ghost js = Seq::new(arr@.len(), |i: int| arr@[i]@);
        let mut out: Vec<String> = Vec::new();
        let mut i: usize = 0;
        while i < arr.len()
            invariant
                i <= arr@.len(),
                js == Seq::new(arr@.len(), |i: int| arr@[i]@),
                views(out@) == strings_in(js.take(i as int)),
            decreases arr@.len() - i,
        {
            proof {
                assert(js.take(i + 1).drop_last() =~= js.take(i as int));
                assert(js.take(i + 1).last() == arr@[i as int]@);
            }
            if let Some(s) = arr[i].as_str() {
                let ghost before = out@;
                out.push(s.clone());
                proof {
                    assert(views(out@) =~= views(before).push(s@));
                }
            }
            i += 1;
        }
        proof {
            assert(js.take(arr@.len() as int) =~= js);
        }
        return Ok(out);
    }
    if let Some(s) = items.as_str() {
        let ls = lines(s.as_str());
        let mut out: Vec<String> = Vec::new();
        let mut i: usize = 0;
        while i < ls.len()
            invariant
                i <= ls@.len(),
                views(ls@) == lines_seq(s@),
                views(out@) == nonempty_trimmed(views(ls@).take(i as int)),
            decreases ls@.len() - i,
        {
            proof {
                assert(views(ls@).take(i + 1).drop_last() =~= views(ls@).take(i as int));
                assert(views(ls@).take(i + 1).last() == ls@[i as int]@);
            }
            let t = trim(ls[i].as_str());
            if !t.as_str().is_empty() {
                let ghost before = out@;
                out.push(t);
                proof {
                    assert(views(out@) =~= views(before).push(t@));
                }
            }
            i += 1;
        }
        proof {
            assert(views(ls@).take(ls@.len() as int) =~= views(ls@));
        }
        return Ok(out);
    }
    Err(tool_error("update_todos requires items"))
}

// ---------------------------------------------------------------------------
// Reading a call into an operation
// ---------------------------------------------------------------------------

/// The workspace operation a tool call asks for, its arguments read.
#[derive(Debug)]
#[allow(inconsistent_fields)]
pub enum ToolOp {
    ListDir { path: String },
    ReadFile { path: String },
    ReadFileRange { path: String, start_line: usize, end_line: usize },
    FindFiles { pattern: String },
    WriteFile { path: String, content: String },
    StrReplace { path: String, old: String, new: String },
    MultiStrReplace { path: String, edits: Vec<(String, String)> },
    DeleteFile { path: String },
    Grep { pattern: String, path: Option<String> },
    RunShell { command: String },
    GitStatus,
    GitDiff,
    GitAdd { paths: String },
    GitCommit { message: String },
    GitPush,
    UpdateTodos { items: Vec<String> },
    Remember { fact: String },
}

/// An operation as a mathematical value.
pub enum OpView {
    ListDir(Seq<char>),
    ReadFile(Seq<char>),
    ReadFileRange(Seq<char>, usize, usize),
    FindFiles(Seq<char>),
    WriteFile(Seq<char>, Seq<char>),
    StrReplace(Seq<char>, Seq<char>, Seq<char>),
    MultiStrReplace(Seq<char>, Seq<(Seq<char>, Seq<char>)>),
    DeleteFile(Seq<char>),
    Grep(Seq<char>, Option<Seq<char>>),
    RunShell(Seq<char>),
    GitStatus,
    GitDiff,
    GitAdd(Seq<char>),
    GitCommit(Seq<char>),
    GitPush,
    UpdateTodos(Seq<Seq<char>>),
    Remember(Seq<char>),
}

/// The view of an operation.
pub open spec fn op_view(op: ToolOp) -> OpView {
    match op {
        ToolOp::ListDir { path } => OpView::ListDir(path@),
        ToolOp::ReadFile { path } => OpView::ReadFile(path@),
        ToolOp::ReadFileRange { path, start_line, end_line } => OpView::ReadFileRange(
            path@,
            start_line,
            end_line,
        ),
        ToolOp::FindFiles { pattern } => OpView::FindFiles(pattern@),
        ToolOp::WriteFile { path, content } => OpView::WriteFile(path@, content@),
        ToolOp::StrReplace { path, old, new } => OpView::StrReplace(path@, old@, new@),
        ToolOp::MultiStrReplace { path, edits } => OpView::MultiStrReplace(path@, pairs_view(edits@)),
        ToolOp::DeleteFile { path } => OpView::DeleteFile(path@),
        ToolOp::Grep { pattern, path } => OpView::Grep(pattern@, opt_str_view(path)),
        ToolOp::RunShell { command } => OpView::RunShell(command@),
        ToolOp::GitStatus => OpView::GitStatus,
        ToolOp::GitDiff => OpView::GitDiff,
        ToolOp::GitAdd { paths } => OpView::GitAdd(paths@),
        ToolOp::GitCommit { message } => OpView::GitCommit(message@),
        ToolOp::GitPush => OpView::GitPush,
        ToolOp::UpdateTodos { items } => OpView::UpdateTodos(views(items@)),
        ToolOp::Remember { fact } => OpView::Remember(fact@),
    }
}

/// The first present of two options.
pub open spec fn either<T>(a: Option<T>, b: Option<T>) -> Option<T> {
    match a {
        Some(x) => Some(x),
        None => b,
    }
}

/// The string argument `a`, else `b`.
pub open spec fn arg2(args: Json, a: Seq<char>, b: Seq<char>) -> Option<Seq<char>> {
    either(arg_str_of(args, a), arg_str_of(args, b))
}

/// The operation a call asks for, or the error message it gets.
pub open spec fn tool_plan(name: Seq<char>, args: Json) -> Result<OpView, Seq<char>> {
    if name == "list_dir"@ {
        Ok(OpView::ListDir(either(arg_str_of(args, "path"@), Some("."@))->0))
    } else if name == "read_file"@ {
        match arg_str_of(args, "path"@) {
            None => Err("read_file requires path"@),
            Some(p) => match (arg_u64_of(args, "start_line"@), arg_u64_of(args, "end_line"@)) {
                (Some(s), Some(e)) => Ok(OpView::ReadFileRange(p, s as usize, e as usize)),
                _ => Ok(OpView::ReadFile(p)),
            },
        }
    } else if name == "find_files"@ {
        match either(arg2(args, "pattern"@, "glob"@), arg_str_of(args, "query"@)) {
            None => Err("find_files requires pattern"@),
            Some(p) => Ok(OpView::FindFiles(p)),
        }
    } else if name == "write_file"@ {
        match arg_str_of(args, "path"@) {
            None => Err("write_file requires path"@),
            Some(p) => match arg2(args, "content"@, "contents"@) {
                None => Err("write_file requires content"@),
                Some(c) => Ok(OpView::WriteFile(p, c)),
            },
        }
    } else if name == "str_replace"@ {
        match arg_str_of(args, "path"@) {
            None => Err("str_replace requires path"@),
            Some(p) => match arg2(args, "old_string"@, "old"@) {
                None => Err("str_replace requires old_string"@),
                Some(o) => match arg2(args, "new_string"@, "new"@) {
                    None => Err("str_replace requires new_string"@),
                    Some(n) => Ok(OpView::StrReplace(p, o, n)),
                },
            },
        }
    } else if name == "multi_str_replace"@ {
        match arg_str_of(args, "path"@) {
            None => Err("multi_str_replace requires path"@),
            Some(p) => match edits_of(args) {
                None => Err(edit_error(args)),
                Some(e) => Ok(OpView::MultiStrReplace(p, e)),
            },
        }
    } else if name == "delete_file"@ {
        match arg_str_of(args, "path"@) {
            None => Err("delete_file requires path"@),
            Some(p) => Ok(OpView::DeleteFile(p)),
        }
    } else if name == "grep"@ {
        match arg2(args, "pattern"@, "query"@) {
            None => Err("grep requires pattern"@),
            Some(p) => Ok(OpView::Grep(p, arg_str_of(args, "path"@))),
        }
    } else if name == "run_shell"@ {
        match arg2(args, "command"@, "cmd"@) {
            None => Err("run_shell requires command"@),
            Some(c) => if is_dangerous_command(c) && contains_seq(spec_to_lowercase(c), "rm -rf /"@) {
                Err("refusing catastrophic command"@)
            } else {
                Ok(OpView::RunShell(c))
            },
        }
    } else if name == "git_status"@ {
        Ok(OpView::GitStatus)
    } else if name == "git_diff"@ {
        Ok(OpView::GitDiff)
    } else if name == "git_add"@ {
        Ok(OpView::GitAdd(either(arg_str_of(args, "paths"@), Some("."@))->0))
    } else if name == "git_commit"@ {
        match arg_str_of(args, "message"@) {
            None => Err("git_commit requires message"@),
            Some(m) => Ok(OpView::GitCommit(m)),
        }
    } else if name == "git_push"@ {
        Ok(OpView::GitPush)
    } else if name == "update_todos"@ {
        match todo_items_of(args) {
            None => Err("update_todos requires items"@),
            Some(items) => Ok(OpView::UpdateTodos(items)),
        }
    } else if name == "remember"@ {
        match arg2(args, "fact"@, "content"@) {
            None => Err("remember requires fact"@),
            Some(f) => Ok(OpView::Remember(f)),
        }
    } else {
        Err("unknown tool: "@ + name)
    }
}

/// `r` is the plan `p`.
pub open spec fn plan_is(r: Result<ToolOp, ToolError>, p: Result<OpView, Seq<char>>) -> bool {
    match (r, p) {
        (Ok(op), Ok(v)) => op_view(op) == v,
        (Err(e), Err(m)) => e.message@ == m,
        _ => false,
    }
}

/// The string argument `a`, else `b`, computed.
fn arg_either(call: &ToolCall, a: &str, b: &str) -> (r: Option<String>)
    ensures
        opt_str_view(r) == arg2(call.args@, a@, b@),
{
    match call.arg_str(a) {
        Some(x) => Some(x),
        None => call.arg_str(b),
    }
}

/// A required string argument.
fn required(v: Option<String>, msg: &str) -> (r: Result<String, ToolError>)
    ensures
        match v {
            Some(x) => r matches Ok(y) && y@ == x@,
            None => r matches Err(e) && e.message@ == msg@,
        },
{
    match v {
        Some(x) => Ok(x),
        None => Err(tool_error(msg)),
    }
}

/// Reads a call's arguments into the workspace operation it asks for (what `execute_tool`
/// then performs), or the error the model is told.
pub fn plan_tool(call: &ToolCall) -> (r: Result<ToolOp, ToolError>)
    ensures
        plan_is(r, tool_plan(call.name@, call.args@)),
{
    let n = call.name.as_str();
    if eq_str(n, "list_dir") {
        let path = match call.arg_str("path") {
            Some(p) => p,
            None => owned("."),
        };
        Ok(ToolOp::ListDir { path })
    } else if eq_str(n, "read_file") {
        let path = required(call.arg_str("path"), "read_file requires path")?;
        match (call.arg_u64("start_line"), call.arg_u64("end_line")) {
            (Some(s), Some(e)) => Ok(ToolOp::ReadFileRange { path, start_line: s as usize, end_line: e as usize }),
            _ => Ok(ToolOp::ReadFile { path }),
        }
    } else if eq_str(n, "find_files") {
        let p = match arg_either(call, "pattern", "glob") {
            Some(p) => Some(p),
            None => call.arg_str("query"),
        };
        let pattern = required(p, "find_files requires pattern")?;
        Ok(ToolOp::FindFiles { pattern })
    } else if eq_str(n, "write_file") {
        let path = required(call.arg_str("path"), "write_file requires path")?;
        let content = required(arg_either(call, "content", "contents"), "write_file requires content")?;
        Ok(ToolOp::WriteFile { path, content })
    } else if eq_str(n, "str_replace") {
        let path = required(call.arg_str("path"), "str_replace requires path")?;
        let old = required(arg_either(call, "old_string", "old"), "str_replace requires old_string")?;
        let new = required(arg_either(call, "new_string", "new"), "str_replace requires new_string")?;
        Ok(ToolOp::StrReplace { path, old, new })
    } else if eq_str(n, "multi_str_replace") {
        let path = required(call.arg_str("path"), "multi_str_replace requires path")?;
        let edits = parse_edits(&call.args)?;
        Ok(ToolOp::MultiStrReplace { path, edits })
    } else if eq_str(n, "delete_file") {
        let path = required(call.arg_str("path"), "delete_file requires path")?;
        Ok(ToolOp::DeleteFile { path })
    } else if eq_str(n, "grep") {
        let pattern = required(arg_either(call, "pattern", "query"), "grep requires pattern")?;
        let path = call.arg_str("path");
        Ok(ToolOp::Grep { pattern, path })
    } else if eq_str(n, "run_shell") {
        let command = required(arg_either(call, "command", "cmd"), "run_shell requires command")?;
        if crate::protocol::is_dangerous_shell(command.as_str()) {
            let l = to_lowercase(command.as_str());
            if contains(l.as_str(), "rm -rf /") {
                return Err(tool_error("refusing catastrophic command"));
            }
        }
        Ok(ToolOp::RunShell { command })
    } else if eq_str(n, "git_status") {
        Ok(ToolOp::GitStatus)
    } else if eq_str(n, "git_diff") {
        Ok(ToolOp::GitDiff)
    } else if eq_str(n, "git_add") {
        let paths = match call.arg_str("paths") {
            Some(p) => p,
            None => owned("."),
        };
        Ok(ToolOp::GitAdd { paths })
    } else if eq_str(n, "git_commit") {
        let message = required(call.arg_str("message"), "git_commit requires message")?;
        Ok(ToolOp::GitCommit { message })
    } else if eq_str(n, "git_push") {
        Ok(ToolOp::GitPush)
    } else if eq_str(n, "update_todos") {
        let items = parse_todo_items(&call.args)?;
        Ok(ToolOp::UpdateTodos { items })
    } else if eq_str(n, "remember") {
        let fact = required(arg_either(call, "fact", "content"), "remember requires fact")?;
        Ok(ToolOp::Remember { fact })
    } else {
        let mut m = owned("unknown tool: ");
        push_str(&mut m, n);
        Err(ToolError { message: m })
    }
}

// ---------------------------------------------------------------------------
// Edit retry
// ---------------------------------------------------------------------------

/// `s` without whitespace.
pub open spec fn compact(s: Seq<char>) -> Seq<char> {
    s.filter(|c: char| !is_ws(c))
}

/// `s` without whitespace, computed.
pub fn compact_string(s: &str) -> (r: String)
    ensures
        r@ == compact(s@),
{
    let v = chars_of(s);
    let mut r = String::new();
    let mut i: usize = 0;
    while i < v.len()
        invariant
            i <= v@.len(),
            r@ == compact(v@.take(i as int)),
        decreases v@.len() - i,
    {
        proof {
            reveal(Seq::filter);
            assert(v@.take(i + 1).drop_last() =~= v@.take(i as int));
            assert(v@.take(i + 1).last() == v@[i as int]);
        }
        if !is_whitespace(v[i]) {
            push_char(&mut r, v[i]);
        }
        i += 1;
    }
    proof {
        assert(v@.take(v@.len() as int) =~= v@);
    }
    r
}

/// The text an `old_string` that did not match is retried with: itself when the file holds it;
/// otherwise, when it has at least 8 bytes besides whitespace, the one line of the file that
/// equals it up to whitespace, if exactly one does.
pub open spec fn softened(content: Seq<char>, old: Seq<char>) -> Option<Seq<char>> {
    if contains_seq(content, old) {
        Some(old)
    } else {
        let oc = compact(old);
        if (blen(oc) as usize) < 8 {
            None
        } else {
            let hits = lines_seq(content).filter(|l: Seq<char>| compact(l) == oc);
            if hits.len() == 1 {
                Some(hits[0])
            } else {
                None
            }
        }
    }
}

/// What a filter keeps comes from the sequence filtered.
proof fn lemma_filter_from(s: Seq<Seq<char>>, pred: spec_fn(Seq<char>) -> bool)
    ensures
        forall|i: int|
            0 <= i < s.filter(pred).len() ==> exists|k: int|
                0 <= k < s.len() && s[k] == #[trigger] s.filter(pred)[i],
    decreases s.len(),
{
    reveal(Seq::filter);
    if s.len() > 0 {
        let p = s.drop_last();
        lemma_filter_from(p, pred);
        let f = s.filter(pred);
        let g = p.filter(pred);
        assert forall|i: int| 0 <= i < f.len() implies exists|k: int|
            0 <= k < s.len() && s[k] == #[trigger] f[i] by {
            if i < g.len() {
                assert(f[i] == g[i]);
                let k = choose|k: int| 0 <= k < p.len() && p[k] == g[i];
                assert(s[k] == p[k]);
            } else {
                assert(f[i] == s[s.len() - 1]);
            }
        }
    }
}

/// Two places that a filter keeps make it keep at least two items.
proof fn lemma_filter_two(s: Seq<Seq<char>>, pred: spec_fn(Seq<char>) -> bool, j: int, k: int)
    requires
        0 <= j < k < s.len(),
        pred(s[j]),
        pred(s[k]),
    ensures
        s.filter(pred).len() >= 2,
{
    s.lemma_filter_take_len(pred, k + 1);
    let t = s.take(k);
    assert(s.take(k + 1) =~= t.push(s[k]));
    t.lemma_filter_len_push(pred, s[k]);
    assert(t[j] == s[j]);
    t.lemma_filter_contains(pred, j);
}

/// A filter of a sequence in which exactly one place qualifies keeps just that item.
proof fn lemma_filter_single(s: Seq<Seq<char>>, pred: spec_fn(Seq<char>) -> bool, k: int)
    requires
        0 <= k <= s.len(),
        forall|j: int| 0 <= j < s.len() && j != k ==> !pred(#[trigger] s[j]),
    ensures
        k < s.len() && pred(s[k]) ==> s.filter(pred) == seq![s[k]],
        !(k < s.len() && pred(s[k])) ==> s.filter(pred).len() == 0,
    decreases s.len(),
{
    reveal(Seq::filter);
    if s.len() > 0 {
        let p = s.drop_last();
        let kk = if k >= s.len() - 1 {
            p.len() as int
        } else {
            k
        };
        assert forall|j: int| 0 <= j < p.len() && j != kk implies !pred(#[trigger] p[j]) by {
            assert(p[j] == s[j]);
        }
        lemma_filter_single(p, pred, kk);
        if k < p.len() {
            assert(p[k] == s[k]);
            assert(!pred(s.last())) by {
                assert(s.last() == s[s.len() - 1]);
            }
        } else if k == s.len() - 1 {
            assert(s.last() == s[k]);
            if pred(s[k]) {
                assert(Seq::<Seq<char>>::empty().push(s[k]) =~= seq![s[k]]);
            }
        } else {
            assert(!pred(s.last())) by {
                assert(s.last() == s[s.len() - 1]);
            }
        }
    }
}

/// When the text to replace is not in the file, the line it is retried with equals it up to
/// whitespace, is a line of the file, and no other line of the file equals it up to
/// whitespace.
pub proof fn law_softened_unique_line(content: Seq<char>, old: Seq<char>)
    requires
        !contains_seq(content, old),
        softened(content, old) is Some,
    ensures
        ({
            let l = softened(content, old)->0;
            let ls = lines_seq(content);
            &&& compact(l) == compact(old)
            &&& exists|k: int| 0 <= k < ls.len() && ls[k] == l
            &&& forall|j: int, k: int|
                0 <= j < ls.len() && 0 <= k < ls.len() && compact(#[trigger] ls[j]) == compact(old)
                    && compact(#[trigger] ls[k]) == compact(old) ==> j == k
        }),
{
    let ls = lines_seq(content);
    let oc = compact(old);
    let pred = |l: Seq<char>| compact(l) == oc;
    let hits = ls.filter(pred);
    assert(hits.len() == 1);
    ls.lemma_filter_pred(pred, 0);
    lemma_filter_from(ls, pred);
    assert forall|j: int, k: int|
        0 <= j < ls.len() && 0 <= k < ls.len() && compact(#[trigger] ls[j]) == compact(old)
            && compact(#[trigger] ls[k]) == compact(old) implies j == k by {
        if j < k {
            lemma_filter_two(ls, pred, j, k);
        } else if k < j {
            lemma_filter_two(ls, pred, k, j);
        }
    }
}

/// A text to replace that the file holds is retried as it is.
pub proof fn law_softened_exact(content: Seq<char>, old: Seq<char>)
    requires
        contains_seq(content, old),
    ensures
        softened(content, old) == Some(old),
{
}

/// When the text to replace is not in the file, has at least 8 bytes besides whitespace, and
/// exactly one line of the file equals it up to whitespace, it is retried with that line.
pub proof fn law_softened_finds_line(content: Seq<char>, old: Seq<char>, k: int)
    requires
        !contains_seq(content, old),
        8 <= blen(compact(old)) <= usize::MAX,
        0 <= k < lines_seq(content).len(),
        compact(lines_seq(content)[k]) == compact(old),
        forall|j: int|
            0 <= j < lines_seq(content).len() && compact(#[trigger] lines_seq(content)[j])
                == compact(old) ==> j == k,
    ensures
        softened(content, old) == Some(lines_seq(content)[k]),
{
    let ls = lines_seq(content);
    let oc = compact(old);
    let pred = |l: Seq<char>| compact(l) == oc;
    assert forall|j: int| 0 <= j < ls.len() && j != k implies !pred(#[trigger] ls[j]) by {}
    lemma_filter_single(ls, pred, k);
}

/// The `old_string` to retry a failed replacement with, if any.
pub fn soften_old_string(content: &str, old: &str) -> (r: Option<String>)
    ensures
        opt_str_view(r) == softened(content@, old@),
{
    if contains(content, old) {
        return Some(owned(old));
    }
    let old_c = compact_string(old);
    if byte_len(old_c.as_str()) < 8 {
        return None;
    }
    let ls = lines(content);
    let ghost target = old_c@;
    let ghost pred = |l: Seq<char>| compact(l) == target;
    let mut count: usize = 0;
    let mut first: Option<String> = None;
    let mut i: usize = 0;
    while i < ls.len()
        invariant
            i <= ls@.len(),
            views(ls@) == lines_seq(content@),
            target == old_c@,
            pred == (|l: Seq<char>| compact(l) == target),
            count == views(ls@).take(i as int).filter(pred).len(),
            count <= i,
            count == 0 <==> first is None,
            count > 0 ==> (first matches Some(f) && f@ == views(ls@).take(i as int).filter(pred)[0]),
        decreases ls@.len() - i,
    {
        let ghost t = views(ls@).take(i + 1);
        proof {
            reveal(Seq::filter);
            assert(t.drop_last() =~= views(ls@).take(i as int));
            assert(t.last() == ls@[i as int]@);
            views(ls@).take(i as int).lemma_filter_len(pred);
        }
        let c = compact_string(ls[i].as_str());
        if c.eq(&old_c) {
            if count == 0 {
                first = Some(ls[i].clone());
                proof {
                    assert(t.filter(pred) =~= seq![ls@[i as int]@]) by {
                        assert(views(ls@).take(i as int).filter(pred).len() == 0);
                    }
                }
            } else {
                proof {
                    assert(t.filter(pred)[0] == views(ls@).take(i as int).filter(pred)[0]);
                }
            }
            count += 1;
        }
        i += 1;
    }
    proof {
        assert(views(ls@).take(ls@.len() as int) =~= views(ls@));
    }
    if count == 1 {
        first
    } else {
        None
    }
}

// ---------------------------------------------------------------------------
// Todos, results, events
// ---------------------------------------------------------------------------

/// The live checklist of a run.
#[derive(Debug)]
pub struct TodoState {
    items: Vec<String>,
}

impl View for TodoState {
    type V = Seq<Seq<char>>;

    closed spec fn view(&self) -> Seq<Seq<char>> {
        views(self.items@)
    }
}

impl TodoState {
    /// An empty checklist.
    pub fn new() -> (r: TodoState)
        ensures
            r@ == Seq::<Seq<char>>::empty(),
    {
        let r = TodoState { items: Vec::new() };
        assert(r@ =~= Seq::<Seq<char>>::empty());
        r
    }

    /// Replaces the checklist.
    pub fn set(&mut self, items: Vec<String>)
        ensures
            final(self)@ == views(items@),
    {
        self.items = items;
    }

    /// A copy of the checklist.
    pub fn snapshot(&self) -> (r: Vec<String>)
        ensures
            views(r@) == self@,
    {
        let mut out: Vec<String> = Vec::new();
        let mut i: usize = 0;
        while i < self.items.len()
            invariant
                i <= self.items@.len(),
                views(out@) == views(self.items@).take(i as int),
            decreases self.items@.len() - i,
        {
            let ghost before = out@;
            let c = self.items[i].clone();
            out.push(c);
            proof {
                assert(views(out@) =~= views(before).push(self.items@[i as int]@));
                assert(views(self.items@).take(i + 1) =~= views(self.items@).take(i as int).push(
                    self.items@[i as int]@,
                ));
            }
            i += 1;
        }
        proof {
            assert(views(self.items@).take(self.items@.len() as int) =~= views(self.items@));
        }
        out
    }
}

/// How calls that need approval are answered.
#[derive(Debug, Clone, Copy, PartialEq, Eq, Structural)]
pub enum ApprovalPolicy {
    /// Every call is approved.
    ApproveAll,
    /// Every call is refused.
    DenyAll,
    /// The user is asked.
    AskUser,
}

impl ApprovalPolicy {
    /// The answer the policy gives by itself, or `None` where the user is to be asked.
    pub fn decided(self) -> (r: Option<bool>)
        ensures
            self == ApprovalPolicy::ApproveAll ==> r == Some(true),
            self == ApprovalPolicy::DenyAll ==> r == Some(false),
            self == ApprovalPolicy::AskUser ==> r is None,
    {
        match self {
            ApprovalPolicy::ApproveAll => Some(true),
            ApprovalPolicy::DenyAll => Some(false),
            ApprovalPolicy::AskUser => None,
        }
    }
}

/// The settings of a run: its step budget, mode, verify command and how approval is given.
#[derive(Debug)]
pub struct AgentOptions {
    pub max_steps: u32,
    pub mode: SessionMode,
    pub verify_command: Option<String>,
    pub approve: ApprovalPolicy,
}

impl Default for AgentOptions {
    /// Sixteen steps in ask mode, no verify command, every call refused.
    fn default() -> (r: AgentOptions)
        ensures
            r.max_steps == 16,
            r.mode == SessionMode::Ask,
            r.verify_command is None,
            r.approve == ApprovalPolicy::DenyAll,
    {
        AgentOptions {
            max_steps: 16,
            mode: SessionMode::Ask,
            verify_command: None,
            approve: ApprovalPolicy::DenyAll,
        }
    }
}

impl AgentOptions {
    /// The options of a run in `mode`.
    pub fn for_mode(
        mode: SessionMode,
        max_steps: u32,
        verify_command: Option<String>,
        approve: ApprovalPolicy,
    ) -> (r: AgentOptions)
        ensures
            r.max_steps == max_steps,
            r.mode == mode,
            r.verify_command == verify_command,
            r.approve == approve,
    {
        AgentOptions { max_steps, mode, verify_command, approve }
    }
}

/// How a run ended.
#[derive(Debug)]
pub struct RunResult {
    pub message: String,
    pub steps: u32,
    pub truncated: bool,
}

/// What a run reports as it goes.
#[derive(Debug)]
pub enum AgentEvent {
    Thinking { step: u32 },
    ToolStart { step: u32, call: ToolCall },
    DiffPreview { path: String, diff: String },
    AwaitingApproval { call: ToolCall, preview: String },
    ToolEnd { step: u32, ok: bool, output: String },
    Todos { items: Vec<String> },
    Verify { command: String, output: String, ok: bool },
    Final { message: String },
    StreamToken { token: String },
    Checkpoint { id: usize, label: String },
}

// ---------------------------------------------------------------------------
// Previews and results
// ---------------------------------------------------------------------------

/// The first `n` characters of `s` (all of it when shorter).
pub open spec fn take_chars(s: Seq<char>, n: nat) -> Seq<char> {
    if s.len() <= n {
        s
    } else {
        s.take(n as int)
    }
}

/// The first `n` characters of `s`.
pub fn first_chars(s: &str, n: usize) -> (r: String)
    ensures
        r@ == take_chars(s@, n as nat),
{
    let v = chars_of(s);
    let hi = if v.len() < n {
        v.len()
    } else {
        n
    };
    let r = crate::text::string_of_range(&v, 0, hi);
    proof {
        if v@.len() <= n {
            assert(v@.subrange(0, hi as int) =~= s@);
        } else {
            assert(v@.subrange(0, hi as int) =~= s@.take(n as int));
        }
    }
    r
}

/// `format!("{:?}", s)` for a string: `s` quoted, with escapes.
pub uninterp spec fn spec_debug_str(s: Seq<char>) -> Seq<char>;

/// Calls the `Debug` formatting of `str` (`format!("{:?}", s)`); its result is named by
/// `spec_debug_str`.
#[verifier::external_body]
fn debug_str(s: &str) -> (r: String)
    ensures
        r@ == spec_debug_str(s@),
{
    format!("{:?}", s)
}

/// The edit tools whose preview shows a file.
pub open spec fn previews_file(name: Seq<char>) -> bool {
    name == "write_file"@ || name == "str_replace"@ || name == "multi_str_replace"@
}

/// The file a preview reads first, if any; a file preview without a path fails.
pub open spec fn preview_source_of(name: Seq<char>, args: Json) -> Result<Option<Seq<char>>, Seq<char>> {
    if previews_file(name) {
        match arg_str_of(args, "path"@) {
            Some(p) => Ok(Some(p)),
            None => Err("path required"@),
        }
    } else {
        Ok(None)
    }
}

/// The string argument or the empty text.
pub open spec fn or_empty(o: Option<Seq<char>>) -> Seq<char> {
    match o {
        Some(s) => s,
        None => Seq::empty(),
    }
}

/// The number of edits a multi-edit call holds (0 when `edits` is not an array).
pub open spec fn edit_count(args: Json) -> nat {
    match json_get(args, "edits"@) {
        Some(e) => match json_array(e) {
            Some(a) => a.len(),
            None => 0,
        },
        None => 0,
    }
}

/// The preview of a call shown before it runs, given the current text `before` of the file
/// it edits (empty where it could not be read).
pub open spec fn preview_text(name: Seq<char>, args: Json, before: Seq<char>) -> Result<Seq<char>, Seq<char>> {
    if previews_file(name) {
        match arg_str_of(args, "path"@) {
            None => Err("path required"@),
            Some(p) => if name == "write_file"@ {
                Ok(crate::diff::diff_text(p, before, or_empty(arg2(args, "content"@, "contents"@))))
            } else if name == "str_replace"@ {
                Ok(
                    crate::diff::diff_text(
                        p,
                        before,
                        crate::text::replace_first(
                            before,
                            or_empty(arg2(args, "old_string"@, "old"@)),
                            or_empty(arg2(args, "new_string"@, "new"@)),
                        ),
                    ),
                )
            } else {
                Ok(
                    "multi_str_replace on "@ + p + " ("@ + crate::text::dec(edit_count(args))
                        + " edits)\n--- current file starts ---\n"@ + take_chars(before, 800),
                )
            },
        }
    } else if name == "delete_file"@ {
        Ok("DELETE "@ + or_empty(arg_str_of(args, "path"@)))
    } else if name == "run_shell"@ {
        Ok("$ "@ + or_empty(arg2(args, "command"@, "cmd"@)))
    } else if name == "git_commit"@ {
        Ok("git commit -m "@ + spec_debug_str(or_empty(arg_str_of(args, "message"@))))
    } else if name == "git_push"@ {
        Ok("git push"@)
    } else {
        Ok(name)
    }
}

/// The result as values.
pub open spec fn result_text(r: Result<String, ToolError>) -> Result<Seq<char>, Seq<char>> {
    match r {
        Ok(s) => Ok(s@),
        Err(e) => Err(e.message@),
    }
}

/// The string or the empty string.
fn unwrap_text(o: Option<String>) -> (r: String)
    ensures
        r@ == or_empty(opt_str_view(o)),
{
    match o {
        Some(s) => s,
        None => String::new(),
    }
}

/// The file a call's preview needs read first (`Ok(None)` when it needs none).
pub fn preview_source(call: &ToolCall) -> (r: Result<Option<String>, ToolError>)
    ensures
        match r {
            Ok(o) => preview_source_of(call.name@, call.args@) == Ok::<
                Option<Seq<char>>,
                Seq<char>,
            >(opt_str_view(o)),
            Err(e) => preview_source_of(call.name@, call.args@) == Err::<
                Option<Seq<char>>,
                Seq<char>,
            >(e.message@),
        },
{
    let n = call.name.as_str();
    if eq_str(n, "write_file") || eq_str(n, "str_replace") || eq_str(n, "multi_str_replace") {
        match call.arg_str("path") {
            Some(p) => Ok(Some(p)),
            None => Err(tool_error("path required")),
        }
    } else {
        Ok(None)
    }
}

/// The preview of a call shown for approval, given the current text of the file it edits
/// (empty where unread).
pub fn preview_tool(call: &ToolCall, before: &str) -> (r: Result<String, ToolError>)
    ensures
        result_text(r) == preview_text(call.name@, call.args@, before@),
{
    let n = call.name.as_str();
    if eq_str(n, "write_file") || eq_str(n, "str_replace") || eq_str(n, "multi_str_replace") {
        let path = match call.arg_str("path") {
            Some(p) => p,
            None => {
                return Err(tool_error("path required"));
            },
        };
        if eq_str(n, "write_file") {
            let content = unwrap_text(arg_either(call, "content", "contents"));
            return Ok(crate::diff::unified_diff(path.as_str(), before, content.as_str()));
        }
        if eq_str(n, "str_replace") {
            let old = unwrap_text(arg_either(call, "old_string", "old"));
            let new = unwrap_text(arg_either(call, "new_string", "new"));
            let after = crate::text::replacen_first(before, old.as_str(), new.as_str());
            return Ok(crate::diff::unified_diff(path.as_str(), before, after.as_str()));
        }
        let count: usize = match call.args.get("edits") {
            Some(e) => match e.as_array() {
                Some(a) => a.len(),
                None => 0,
            },
            None => 0,
        };
        let mut out = owned("multi_str_replace on ");
        push_str(&mut out, path.as_str());
        push_str(&mut out, " (");
        let d = crate::text::usize_to_string(count);
        push_str(&mut out, d.as_str());
        push_str(&mut out, " edits)\n--- current file starts ---\n");
        let head = first_chars(before, 800);
        push_str(&mut out, head.as_str());
        return Ok(out);
    }
    if eq_str(n, "delete_file") {
        let p = unwrap_text(call.arg_str("path"));
        return Ok(crate::text::concat2("DELETE ", p.as_str()));
    }
    if eq_str(n, "run_shell") {
        let c = unwrap_text(arg_either(call, "command", "cmd"));
        return Ok(crate::text::concat2("$ ", c.as_str()));
    }
    if eq_str(n, "git_commit") {
        let m = unwrap_text(call.arg_str("message"));
        let q = debug_str(m.as_str());
        return Ok(crate::text::concat2("git commit -m ", q.as_str()));
    }
    if eq_str(n, "git_push") {
        return Ok(owned("git push"));
    }
    Ok(owned(n))
}

/// The result of writing a file.
pub fn wrote_message(path: &str, content: &str) -> (r: String)
    ensures
        r@ == "wrote "@ + path@ + " ("@ + crate::text::dec(blen(content@)) + " bytes)"@,
{
    let mut m = owned("wrote ");
    push_str(&mut m, path);
    push_str(&mut m, " (");
    let d = crate::text::usize_to_string(byte_len(content));
    push_str(&mut m, d.as_str());
    push_str(&mut m, " bytes)");
    m
}

/// The result of updating the checklist.
pub fn todos_message(count: usize) -> (r: String)
    ensures
        r@ == "todos updated ("@ + crate::text::dec(count as nat) + " items)"@,
{
    let mut m = owned("todos updated (");
    let d = crate::text::usize_to_string(count);
    push_str(&mut m, d.as_str());
    push_str(&mut m, " items)");
    m
}

/// The result of remembering a fact.
pub fn remembered_message(fact: &str) -> (r: String)
    ensures
        r@ == "remembered: "@ + fact@,
{
    crate::text::concat2("remembered: ", fact)
}

/// The result of a replacement that succeeded on retry.
pub fn retried_message(msg: &str) -> (r: String)
    ensures
        r@ == msg@ + " (auto-retried with normalized match)"@,
{
    crate::text::concat2(msg, " (auto-retried with normalized match)")
}

/// The error of a replacement that could not be retried: the error, then the start of the
/// file, and what to do.
pub fn edit_failure(err: &str, path: &str, content: &str) -> (r: ToolError)
    ensures
        r.message@ == err@ + "\n\nFILE_EXCERPT "@ + path@ + ":\n"@ + take_chars(content@, 1200)
            + "\n\nRe-read and craft a unique old_string from this file."@,
{
    let mut m = owned(err);
    push_str(&mut m, "\n\nFILE_EXCERPT ");
    push_str(&mut m, path);
    push_str(&mut m, ":\n");
    let head = first_chars(content, 1200);
    push_str(&mut m, head.as_str());
    push_str(&mut m, "\n\nRe-read and craft a unique old_string from this file.");
    ToolError { message: m }
}

/// The text a failed tool call reports.
pub fn error_output(e: &ToolError) -> (r: String)
    ensures
        r@ == "error: "@ + e.message@,
{
    crate::text::concat2("error: ", e.message.as_str())
}

/// What the tools of a run share: the workspace, the project memory and the checklist.
pub struct ToolContext<'a> {
    pub workspace: &'a crate::sandbox::Workspace,
    pub memory: &'a mut crate::memory::ProjectMemory,
    pub todos: &'a mut TodoState,
}

impl<'a> ToolContext<'a> {
    /// Carries out the operations that only change the run's own state: the checklist and
    /// the project memory (the caller saves the memory). Other operations give `None`.
    pub fn apply_local(&mut self, op: &ToolOp) -> (r: Option<String>)
        ensures
            op matches ToolOp::UpdateTodos { items } ==> (r matches Some(m) && m@
                == "todos updated ("@ + crate::text::dec(items@.len()) + " items)"@
                && final(self).todos@ == views(items@)),
            op matches ToolOp::Remember { fact } ==> (r matches Some(m) && m@ == "remembered: "@
                + fact@ && views(final(self).memory.facts@) == crate::memory::facts_added(
                views(old(self).memory.facts@),
                fact@,
            )),
            !(op is UpdateTodos || op is Remember) ==> r is None,
            !(op is Remember) ==> *final(self).memory == *old(self).memory,
            !(op is UpdateTodos) ==> *final(self).todos == *old(self).todos,
            *final(self).workspace == *old(self).workspace,
    {
        match op {
            ToolOp::UpdateTodos { items } => {
                let mut copy: Vec<String> = Vec::new();
                let mut i: usize = 0;
                while i < items.len()
                    invariant
                        i <= items@.len(),
                        views(copy@) == views(items@).take(i as int),
                    decreases items@.len() - i,
                {
                    let ghost before = copy@;
                    let c = items[i].clone();
                    copy.push(c);
                    proof {
                        assert(views(copy@) =~= views(before).push(c@));
                        assert(views(items@).take(i + 1) =~= views(items@).take(i as int).push(
                            items@[i as int]@,
                        ));
                    }
                    i += 1;
                }
                proof {
                    assert(views(items@).take(items@.len() as int) =~= views(items@));
                }
                let n = copy.len();
                self.todos.set(copy);
                Some(todos_message(n))
            },
            ToolOp::Remember { fact } => {
                self.memory.add(fact.as_str());
                Some(remembered_message(fact.as_str()))
            },
            _ => None,
        }
    }
}

} // verus!
