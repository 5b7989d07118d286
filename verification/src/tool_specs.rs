//! The tools offered to the model as native function specs: name, description and the JSON
//! schema of the arguments. Objects list their members in key order.
use vstd::prelude::*;

use crate::config::SessionMode;
use crate::json::{Json, JsonValue};
use crate::protocol::{allowed_in_mode, is_mutating_name, is_readonly_name};
use crate::text::owned;

verus! {

/// A function the model may call: its name, what it does, and its arguments' schema.
#[derive(Debug)]
pub struct ToolFunctionSpec {
    pub name: String,
    pub description: String,
    pub parameters: JsonValue,
}

/// A tool offered to the model (`"type": "function"`).
#[derive(Debug)]
pub struct ToolSpec {
    pub type_: String,
    pub function: ToolFunctionSpec,
}

/// A tool spec as values: name, description, parameters.
pub open spec fn spec_view(s: ToolSpec) -> (Seq<char>, Seq<char>, Json) {
    (s.function.name@, s.function.description@, s.function.parameters@)
}

/// A list of tool specs as values.
pub open spec fn specs_view(s: Seq<ToolSpec>) -> Seq<(Seq<char>, Seq<char>, Json)> {
    s.map_values(|t: ToolSpec| spec_view(t))
}

/// `{"description": d, "type": t}`.
pub open spec fn typed(t: Seq<char>, d: Seq<char>) -> Json {
    Json::Object(seq![("description"@, Json::Str(d)), ("type"@, Json::Str(t))])
}

/// A string argument.
pub open spec fn str_prop(d: Seq<char>) -> Json {
    typed("string"@, d)
}

/// An integer argument.
pub open spec fn num_prop(d: Seq<char>) -> Json {
    typed("integer"@, d)
}

/// An argument that is a list of strings.
pub open spec fn arr_str(d: Seq<char>) -> Json {
    Json::Object(
        seq![
            ("description"@, Json::Str(d)),
            ("items"@, Json::Object(seq![("type"@, Json::Str("string"@))])),
            ("type"@, Json::Str("array"@)),
        ],
    )
}

/// The schema of an object with the members `props` (in key order), of which `required`
/// must be given.
pub open spec fn obj(props: Seq<(Seq<char>, Json)>, required: Seq<Seq<char>>) -> Json {
    Json::Object(
        seq![
            ("properties"@, Json::Object(props)),
            ("required"@, Json::Array(required.map_values(|r: Seq<char>| Json::Str(r)))),
            ("type"@, Json::Str("object"@)),
        ],
    )
}

/// The `k`-th tool offered: the eight that do not change the workspace first, then the four
/// that do.
pub open spec fn tool_entry(k: int) -> (Seq<char>, Seq<char>, Json) {
    if k == 0 {
        (
            "list_dir"@,
            "List files in a directory under the workspace"@,
            obj(seq![("path"@, str_prop("relative directory, default ."@))], seq![]),
        )
    } else if k == 1 {
        (
            "read_file"@,
            "Read a file (optional line range)"@,
            obj(
                seq![
                    ("end_line"@, num_prop("optional"@)),
                    ("path"@, str_prop("relative file path"@)),
                    ("start_line"@, num_prop("optional"@)),
                ],
                seq!["path"@],
            ),
        )
    } else if k == 2 {
        (
            "find_files"@,
            "Find files by name/pattern"@,
            obj(seq![("pattern"@, str_prop("e.g. *.rs or main"@))], seq!["pattern"@]),
        )
    } else if k == 3 {
        (
            "grep"@,
            "Search file contents with regex"@,
            obj(
                seq![("path"@, str_prop("optional subdirectory"@)), ("pattern"@, str_prop("regex"@))],
                seq!["pattern"@],
            ),
        )
    } else if k == 4 {
        ("git_status"@, "Short git status"@, obj(seq![], seq![]))
    } else if k == 5 {
        ("git_diff"@, "Unstaged git diff"@, obj(seq![], seq![]))
    } else if k == 6 {
        (
            "update_todos"@,
            "Update live checklist"@,
            obj(seq![("items"@, arr_str("todo strings"@))], seq!["items"@]),
        )
    } else if k == 7 {
        (
            "remember"@,
            "Persist a project fact"@,
            obj(seq![("fact"@, str_prop("fact text"@))], seq!["fact"@]),
        )
    } else if k == 8 {
        (
            "write_file"@,
            "Create or overwrite a file"@,
            obj(
                seq![("content"@, str_prop("full contents"@)), ("path"@, str_prop("path"@))],
                seq!["path"@, "content"@],
            ),
        )
    } else if k == 9 {
        (
            "str_replace"@,
            "Replace one unique string in a file"@,
            obj(
                seq![
                    ("new_string"@, str_prop("replacement"@)),
                    ("old_string"@, str_prop("exact unique old text"@)),
                    ("path"@, str_prop("path"@)),
                ],
                seq!["path"@, "old_string"@, "new_string"@],
            ),
        )
    } else if k == 10 {
        (
            "run_shell"@,
            "Run a bash command in the workspace"@,
            obj(seq![("command"@, str_prop("bash command"@))], seq!["command"@]),
        )
    } else {
        (
            "git_commit"@,
            "Create a git commit"@,
            obj(seq![("message"@, str_prop("commit message"@))], seq!["message"@]),
        )
    }
}

/// How many tools are offered in a mode: the eight read-only ones in plan mode, all twelve
/// otherwise.
pub open spec fn offered_count(mode: SessionMode) -> int {
    if mode == SessionMode::Plan {
        8
    } else {
        12
    }
}

/// The tools offered in a mode.
pub open spec fn offered(mode: SessionMode) -> Seq<(Seq<char>, Seq<char>, Json)> {
    Seq::new(offered_count(mode) as nat, |k: int| tool_entry(k))
}

/// A string value.
fn jstr(s: &str) -> (r: JsonValue)
    ensures
        r@ == Json::Str(s@),
{
    JsonValue::Str(owned(s))
}

/// An object of the given members, in the given order.
fn make_object(entries: Vec<(String, JsonValue)>) -> (r: JsonValue)
    ensures
        r@ == Json::Object(entries@.map_values(|e: (String, JsonValue)| (e.0@, e.1@))),
{
    let r = JsonValue::Object(entries);
    proof {
        if let Json::Object(a) = r@ {
            assert(a =~= entries@.map_values(|e: (String, JsonValue)| (e.0@, e.1@)));
        }
    }
    r
}

/// `{"description": d, "type": t}`, computed.
fn typed_exec(t: &str, d: &str) -> (r: JsonValue)
    ensures
        r@ == typed(t@, d@),
{
    let v = vec![(owned("description"), jstr(d)), (owned("type"), jstr(t))];
    let r = make_object(v);
    proof {
        assert(v@.map_values(|e: (String, JsonValue)| (e.0@, e.1@)) =~= seq![
            ("description"@, Json::Str(d@)),
            ("type"@, Json::Str(t@)),
        ]);
    }
    r
}

/// A string argument, computed.
fn str_prop_exec(d: &str) -> (r: JsonValue)
    ensures
        r@ == str_prop(d@),
{
    proof {
        reveal_strlit("string");
    }
    typed_exec("string", d)
}

/// An integer argument, computed.
fn num_prop_exec(d: &str) -> (r: JsonValue)
    ensures
        r@ == num_prop(d@),
{
    typed_exec("integer", d)
}

/// A list-of-strings argument, computed.
fn arr_str_exec(d: &str) -> (r: JsonValue)
    ensures
        r@ == arr_str(d@),
{
    let it = vec![(owned("type"), jstr("string"))];
    let items = make_object(it);
    proof {
        assert(it@.map_values(|e: (String, JsonValue)| (e.0@, e.1@)) =~= seq![
            ("type"@, Json::Str("string"@)),
        ]);
    }
    let v = vec![(owned("description"), jstr(d)), (owned("items"), items), (owned("type"), jstr("array"))];
    let r = make_object(v);
    proof {
        assert(v@.map_values(|e: (String, JsonValue)| (e.0@, e.1@)) =~= seq![
            ("description"@, Json::Str(d@)),
            ("items"@, Json::Object(seq![("type"@, Json::Str("string"@))])),
            ("type"@, Json::Str("array"@)),
        ]);
    }
    r
}

/// An object schema, computed: `props` with their schemas, `required` the names that must
/// be given.
fn obj_exec(props: Vec<(String, JsonValue)>, required: Vec<&str>) -> (r: JsonValue)
    ensures
        r@ == obj(
            props@.map_values(|e: (String, JsonValue)| (e.0@, e.1@)),
            required@.map_values(|s: &str| s@),
        ),
{
    let ghost pv = props@.map_values(|e: (String, JsonValue)| (e.0@, e.1@));
    let ghost rv = required@.map_values(|s: &str| s@);
    let p = make_object(props);
    let mut req: Vec<JsonValue> = Vec::new();
    let mut i: usize = 0;
    while i < required.len()
        invariant
            i <= required@.len(),
            rv == required@.map_values(|s: &str| s@),
            req@.map_values(|x: JsonValue| x@) == rv.take(i as int).map_values(
                |r: Seq<char>| Json::Str(r),
            ),
        decreases required@.len() - i,
    {
        let ghost before = req@;
        let x = jstr(required[i]);
        req.push(x);
        proof {
            assert(req@.map_values(|x: JsonValue| x@) =~= before.map_values(|x: JsonValue| x@).push(
                Json::Str(rv[i as int]),
            ));
            assert(rv.take(i + 1) =~= rv.take(i as int).push(rv[i as int]));
            assert(req@.map_values(|x: JsonValue| x@) =~= rv.take(i + 1).map_values(
                |r: Seq<char>| Json::Str(r),
            ));
        }
        i += 1;
    }
    let a = JsonValue::Array(req);
    proof {
        assert(rv.take(rv.len() as int) =~= rv);
        if let Json::Array(x) = a@ {
            assert(x =~= rv.map_values(|r: Seq<char>| Json::Str(r)));
        }
    }
    let v = vec![(owned("properties"), p), (owned("required"), a), (owned("type"), jstr("object"))];
    let r = make_object(v);
    proof {
        assert(v@.map_values(|e: (String, JsonValue)| (e.0@, e.1@)) =~= seq![
            ("properties"@, Json::Object(pv)),
            ("required"@, Json::Array(rv.map_values(|r: Seq<char>| Json::Str(r)))),
            ("type"@, Json::Str("object"@)),
        ]);
    }
    r
}

/// A function tool spec.
fn tool(name: &str, description: &str, parameters: JsonValue) -> (r: ToolSpec)
    ensures
        spec_view(r) == (name@, description@, parameters@),
        r.type_@ == "function"@,
{
    ToolSpec {
        type_: owned("function"),
        function: ToolFunctionSpec { name: owned(name), description: owned(description), parameters },
    }
}

/// The `k`-th tool offered, computed.
fn tool_entry_exec(k: usize) -> (r: ToolSpec)
    requires
        k < 12,
    ensures
        spec_view(r) == tool_entry(k as int),
        r.type_@ == "function"@,
{
    if k == 0 {
        let props: Vec<(String, JsonValue)> = vec![(owned("path"), str_prop_exec("relative directory, default ."))];
        let req: Vec<&str> = vec![];
        proof {
            assert(props@.map_values(|e: (String, JsonValue)| (e.0@, e.1@)) =~= seq![("path"@, str_prop("relative directory, default ."@))]);
            assert(req@.map_values(|s: &str| s@) =~= seq![]);
        }
        let p = obj_exec(props, req);
        tool("list_dir", "List files in a directory under the workspace", p)
    } else if k == 1 {
        let props: Vec<(String, JsonValue)> = vec![(owned("end_line"), num_prop_exec("optional")), (owned("path"), str_prop_exec("relative file path")), (owned("start_line"), num_prop_exec("optional"))];
        let req: Vec<&str> = vec!["path"];
        proof {
            assert(props@.map_values(|e: (String, JsonValue)| (e.0@, e.1@)) =~= seq![("end_line"@, num_prop("optional"@)), ("path"@, str_prop("relative file path"@)), ("start_line"@, num_prop("optional"@))]);
            assert(req@.map_values(|s: &str| s@) =~= seq!["path"@]);
        }
        let p = obj_exec(props, req);
        tool("read_file", "Read a file (optional line range)", p)
    } else if k == 2 {
        let props: Vec<(String, JsonValue)> = vec![(owned("pattern"), str_prop_exec("e.g. *.rs or main"))];
        let req: Vec<&str> = vec!["pattern"];
        proof {
            assert(props@.map_values(|e: (String, JsonValue)| (e.0@, e.1@)) =~= seq![("pattern"@, str_prop("e.g. *.rs or main"@))]);
            assert(req@.map_values(|s: &str| s@) =~= seq!["pattern"@]);
        }
        let p = obj_exec(props, req);
        tool("find_files", "Find files by name/pattern", p)
    } else if k == 3 {
        let props: Vec<(String, JsonValue)> = vec![(owned("path"), str_prop_exec("optional subdirectory")), (owned("pattern"), str_prop_exec("regex"))];
        let req: Vec<&str> = vec!["pattern"];
        proof {
            assert(props@.map_values(|e: (String, JsonValue)| (e.0@, e.1@)) =~= seq![("path"@, str_prop("optional subdirectory"@)), ("pattern"@, str_prop("regex"@))]);
            assert(req@.map_values(|s: &str| s@) =~= seq!["pattern"@]);
        }
        let p = obj_exec(props, req);
        tool("grep", "Search file contents with regex", p)
    } else if k == 4 {
        let props: Vec<(String, JsonValue)> = vec![];
        let req: Vec<&str> = vec![];
        proof {
            assert(props@.map_values(|e: (String, JsonValue)| (e.0@, e.1@)) =~= seq![]);
            assert(req@.map_values(|s: &str| s@) =~= seq![]);
        }
        let p = obj_exec(props, req);
        tool("git_status", "Short git status", p)
    } else if k == 5 {
        let props: Vec<(String, JsonValue)> = vec![];
        let req: Vec<&str> = vec![];
        proof {
            assert(props@.map_values(|e: (String, JsonValue)| (e.0@, e.1@)) =~= seq![]);
            assert(req@.map_values(|s: &str| s@) =~= seq![]);
        }
        let p = obj_exec(props, req);
        tool("git_diff", "Unstaged git diff", p)
    } else if k == 6 {
        let props: Vec<(String, JsonValue)> = vec![(owned("items"), arr_str_exec("todo strings"))];
        let req: Vec<&str> = vec!["items"];
        proof {
            assert(props@.map_values(|e: (String, JsonValue)| (e.0@, e.1@)) =~= seq![("items"@, arr_str("todo strings"@))]);
            assert(req@.map_values(|s: &str| s@) =~= seq!["items"@]);
        }
        let p = obj_exec(props, req);
        tool("update_todos", "Update live checklist", p)
    } else if k == 7 {
        let props: Vec<(String, JsonValue)> = vec![(owned("fact"), str_prop_exec("fact text"))];
        let req: Vec<&str> = vec!["fact"];
        proof {
            assert(props@.map_values(|e: (String, JsonValue)| (e.0@, e.1@)) =~= seq![("fact"@, str_prop("fact text"@))]);
            assert(req@.map_values(|s: &str| s@) =~= seq!["fact"@]);
        }
        let p = obj_exec(props, req);
        tool("remember", "Persist a project fact", p)
    } else if k == 8 {
        let props: Vec<(String, JsonValue)> = vec![(owned("content"), str_prop_exec("full contents")), (owned("path"), str_prop_exec("path"))];
        let req: Vec<&str> = vec!["path", "content"];
        proof {
            assert(props@.map_values(|e: (String, JsonValue)| (e.0@, e.1@)) =~= seq![("content"@, str_prop("full contents"@)), ("path"@, str_prop("path"@))]);
            assert(req@.map_values(|s: &str| s@) =~= seq!["path"@, "content"@]);
        }
        let p = obj_exec(props, req);
        tool("write_file", "Create or overwrite a file", p)
    } else if k == 9 {
        let props: Vec<(String, JsonValue)> = vec![(owned("new_string"), str_prop_exec("replacement")), (owned("old_string"), str_prop_exec("exact unique old text")), (owned("path"), str_prop_exec("path"))];
        let req: Vec<&str> = vec!["path", "old_string", "new_string"];
        proof {
            assert(props@.map_values(|e: (String, JsonValue)| (e.0@, e.1@)) =~= seq![("new_string"@, str_prop("replacement"@)), ("old_string"@, str_prop("exact unique old text"@)), ("path"@, str_prop("path"@))]);
            assert(req@.map_values(|s: &str| s@) =~= seq!["path"@, "old_string"@, "new_string"@]);
        }
        let p = obj_exec(props, req);
        tool("str_replace", "Replace one unique string in a file", p)
    } else if k == 10 {
        let props: Vec<(String, JsonValue)> = vec![(owned("command"), str_prop_exec("bash command"))];
        let req: Vec<&str> = vec!["command"];
        proof {
            assert(props@.map_values(|e: (String, JsonValue)| (e.0@, e.1@)) =~= seq![("command"@, str_prop("bash command"@))]);
            assert(req@.map_values(|s: &str| s@) =~= seq!["command"@]);
        }
        let p = obj_exec(props, req);
        tool("run_shell", "Run a bash command in the workspace", p)
    } else {
        let props: Vec<(String, JsonValue)> = vec![(owned("message"), str_prop_exec("commit message"))];
        let req: Vec<&str> = vec!["message"];
        proof {
            assert(props@.map_values(|e: (String, JsonValue)| (e.0@, e.1@)) =~= seq![("message"@, str_prop("commit message"@))]);
            assert(req@.map_values(|s: &str| s@) =~= seq!["message"@]);
        }
        let p = obj_exec(props, req);
        tool("git_commit", "Create a git commit", p)
    }
}

/// The tools offered to the model in `mode`: all of them, except in plan mode, where only
/// those that do not change the workspace are.
pub fn ollama_tool_specs(mode: SessionMode) -> (r: Vec<ToolSpec>)
    ensures
        specs_view(r@) == offered(mode),
        forall|k: int| 0 <= k < r@.len() ==> (#[trigger] r@[k]).type_@ == "function"@,
{
    let n: usize = match mode {
        SessionMode::Plan => 8,
        _ => 12,
    };
    let mut out: Vec<ToolSpec> = Vec::new();
    let mut k: usize = 0;
    while k < n
        invariant
            k <= n,
            n as int == offered_count(mode),
            specs_view(out@) == offered(mode).take(k as int),
            forall|q: int| 0 <= q < out@.len() ==> (#[trigger] out@[q]).type_@ == "function"@,
        decreases n - k,
    {
        let t = tool_entry_exec(k);
        let ghost before = out@;
        out.push(t);
        proof {
            assert(specs_view(out@) =~= specs_view(before).push(spec_view(t)));
            assert(offered(mode).take(k + 1) =~= offered(mode).take(k as int).push(tool_entry(k as int)));
        }
        k += 1;
    }
    proof {
        assert(offered(mode).take(n as int) =~= offered(mode));
    }
    out
}

/// None of the read-only tools offered is a tool that changes the workspace.
proof fn lemma_reads_not_mutating()
    ensures
        !is_mutating_name("list_dir"@),
        !is_mutating_name("read_file"@),
        !is_mutating_name("find_files"@),
        !is_mutating_name("grep"@),
        !is_mutating_name("git_status"@),
        !is_mutating_name("git_diff"@),
        !is_mutating_name("update_todos"@),
        !is_mutating_name("remember"@),
{
    broadcast use vstd::string::group_string_axioms;

    reveal_strlit("list_dir");
    reveal_strlit("read_file");
    reveal_strlit("find_files");
    reveal_strlit("grep");
    reveal_strlit("git_status");
    reveal_strlit("git_diff");
    reveal_strlit("update_todos");
    reveal_strlit("remember");
    reveal_strlit("write_file");
    reveal_strlit("str_replace");
    reveal_strlit("multi_str_replace");
    reveal_strlit("delete_file");
    reveal_strlit("run_shell");
    reveal_strlit("git_add");
    reveal_strlit("git_commit");
    reveal_strlit("git_push");
    assert("list_dir"@.len() == 8);
    assert("read_file"@.len() == 9);
    assert("find_files"@.len() == 10);
    assert("grep"@.len() == 4);
    assert("git_status"@.len() == 10);
    assert("git_diff"@.len() == 8);
    assert("update_todos"@.len() == 12);
    assert("remember"@.len() == 8);
    assert("write_file"@.len() == 10);
    assert("str_replace"@.len() == 11);
    assert("multi_str_replace"@.len() == 17);
    assert("delete_file"@.len() == 11);
    assert("run_shell"@.len() == 9);
    assert("git_add"@.len() == 7);
    assert("git_commit"@.len() == 10);
    assert("git_push"@.len() == 8);
    assert("list_dir"@[0] != "git_push"@[0]);
    assert("read_file"@[1] != "run_shell"@[1]);
    assert("find_files"@[0] != "write_file"@[0]);
    assert("find_files"@[0] != "git_commit"@[0]);
    assert("git_status"@[0] != "write_file"@[0]);
    assert("git_status"@[4] != "git_commit"@[4]);
    assert("git_diff"@[4] != "git_push"@[4]);
    assert("remember"@[0] != "git_push"@[0]);
}

/// Every tool offered in a mode is allowed in that mode; in plan mode none of them changes
/// the workspace.
pub proof fn law_offered_tools_allowed(mode: SessionMode)
    ensures
        forall|k: int|
            0 <= k < offered(mode).len() ==> allowed_in_mode(#[trigger] offered(mode)[k].0, mode),
        mode == SessionMode::Plan ==> forall|k: int|
            0 <= k < offered(mode).len() ==> !is_mutating_name(#[trigger] offered(mode)[k].0),
{
    broadcast use vstd::string::group_string_axioms;

    reveal_strlit("list_dir");
    reveal_strlit("read_file");
    reveal_strlit("find_files");
    reveal_strlit("grep");
    reveal_strlit("git_status");
    reveal_strlit("git_diff");
    reveal_strlit("update_todos");
    reveal_strlit("remember");
    reveal_strlit("write_file");
    reveal_strlit("str_replace");
    reveal_strlit("multi_str_replace");
    reveal_strlit("delete_file");
    reveal_strlit("run_shell");
    reveal_strlit("git_add");
    reveal_strlit("git_commit");
    reveal_strlit("git_push");
    reveal_strlit("spawn_subagents");
    assert forall|k: int| 0 <= k < offered(mode).len() implies allowed_in_mode(
        #[trigger] offered(mode)[k].0,
        mode,
    ) && (mode == SessionMode::Plan ==> !is_mutating_name(offered(mode)[k].0)) by {
        assert(offered(mode)[k] == tool_entry(k));
        lemma_reads_not_mutating();
        if mode == SessionMode::Plan {
            assert(k < 8);
            if k == 0 {
            } else if k == 1 {
            } else if k == 2 {
            } else if k == 3 {
            } else if k == 4 {
            } else if k == 5 {
            } else if k == 6 {
            } else {
            }
        }
    }
}

} // verus!
