//! Plugin tools over MCP (JSON-RPC over a server's stdio): the messages sent, how replies are
//! read, and the catalog of the tools the servers offer. Spawning the servers and moving the
//! lines is the caller's.
use vstd::prelude::*;

use crate::json::{json_array, json_get, json_str, json_text, json_equal, to_json_text, Json, JsonValue};
use crate::runtime::ToolError;
use crate::text::{eq_str, join, join_seq, owned, push_char, push_str, views};
use crate::tool_specs::{spec_view, ToolFunctionSpec, ToolSpec};

verus! {

/// A tool offered by a plugin server.
#[derive(Debug)]
pub struct McpToolInfo {
    pub server: String,
    pub name: String,
    pub qualified: String,
    pub description: String,
    pub input_schema: JsonValue,
}

/// A tool as values: server, name, qualified name, description, input schema.
pub open spec fn info_view(t: McpToolInfo) -> (Seq<char>, Seq<char>, Seq<char>, Seq<char>, Json) {
    (t.server@, t.name@, t.qualified@, t.description@, t.input_schema@)
}

/// A list of tools as values.
pub open spec fn infos_view(t: Seq<McpToolInfo>) -> Seq<(Seq<char>, Seq<char>, Seq<char>, Seq<char>, Json)> {
    t.map_values(|x: McpToolInfo| info_view(x))
}

impl McpToolInfo {
    /// A copy.
    pub fn duplicate(&self) -> (r: McpToolInfo)
        ensures
            info_view(r) == info_view(*self),
    {
        McpToolInfo {
            server: self.server.clone(),
            name: self.name.clone(),
            qualified: self.qualified.clone(),
            description: self.description.clone(),
            input_schema: self.input_schema.duplicate(),
        }
    }
}

/// A character kept in a qualified name: ASCII letters and digits stay, all else is `_`.
pub open spec fn clean_char(c: char) -> char {
    if ('a' <= c <= 'z') || ('A' <= c <= 'Z') || ('0' <= c <= '9') {
        c
    } else {
        '_'
    }
}

/// A name with every character that is not an ASCII letter or digit written `_`.
pub open spec fn cleaned(s: Seq<char>) -> Seq<char> {
    s.map_values(|c: char| clean_char(c))
}

/// The name a plugin tool is offered under: `mcp_`, the server, `_`, the tool, cleaned.
pub open spec fn qualified_name(server: Seq<char>, tool: Seq<char>) -> Seq<char> {
    "mcp_"@ + cleaned(server) + "_"@ + cleaned(tool)
}

/// `s` cleaned, appended to `out`.
fn push_cleaned(out: &mut String, s: &str)
    ensures
        final(out)@ == old(out)@ + cleaned(s@),
{
    let v = crate::text::chars_of(s);
    let mut i: usize = 0;
    while i < v.len()
        invariant
            i <= v@.len(),
            v@ == s@,
            out@ == old(out)@ + cleaned(v@.take(i as int)),
        decreases v@.len() - i,
    {
        let c = v[i];
        let k = if ('a' <= c && c <= 'z') || ('A' <= c && c <= 'Z') || ('0' <= c && c <= '9') {
            c
        } else {
            '_'
        };
        push_char(out, k);
        proof {
            assert(cleaned(v@.take(i + 1)) =~= cleaned(v@.take(i as int)).push(clean_char(c)));
        }
        i += 1;
    }
    proof {
        assert(v@.take(v@.len() as int) =~= v@);
    }
}

/// The name a plugin tool is offered under.
pub fn qualify(server: &str, tool: &str) -> (r: String)
    ensures
        r@ == qualified_name(server@, tool@),
{
    let mut r = owned("mcp_");
    push_cleaned(&mut r, server);
    push_str(&mut r, "_");
    push_cleaned(&mut r, tool);
    r
}

// ---------------------------------------------------------------------------
// Messages
// ---------------------------------------------------------------------------

/// A string value.
fn jstr(s: &str) -> (r: JsonValue)
    ensures
        r@ == Json::Str(s@),
{
    JsonValue::Str(owned(s))
}

/// An object with the given members, in order.
fn object(entries: Vec<(String, JsonValue)>) -> (r: JsonValue)
    ensures
        r@ == Json::Object(entries@.map_values(|e: (String, JsonValue)| (e.0@, e.1@))),
{
    let r = JsonValue::Object(entries);
    proof {
        if let Json::Object(a) = r@ {
            assert(a =~= entries@.map_values(|e: (String, JsonValue)| (e.0@, e.1@)));
        }
    }
    r
}

/// The members of the messages, in key order.
pub open spec fn rpc(id: Option<u64>, method: Seq<char>, params: Option<Json>) -> Json {
    Json::Object(
        (match id {
            Some(n) => seq![("id"@, Json::UInt(n))],
            None => seq![],
        }) + seq![("jsonrpc"@, Json::Str("2.0"@)), ("method"@, Json::Str(method))] + match params {
            Some(p) => seq![("params"@, p)],
            None => seq![],
        },
    )
}

/// A JSON-RPC message: `id` where it expects a reply, `params` where it has any.
fn rpc_message(id: Option<u64>, method: &str, params: Option<JsonValue>) -> (r: JsonValue)
    ensures
        r@ == rpc(
            id,
            method@,
            match params {
                Some(p) => Some(p@),
                None => None,
            },
        ),
{
    let mut v: Vec<(String, JsonValue)> = Vec::new();
    match id {
        Some(n) => v.push((owned("id"), JsonValue::UInt(n))),
        None => {},
    }
    v.push((owned("jsonrpc"), jstr("2.0")));
    v.push((owned("method"), jstr(method)));
    let ghost pv = match &params {
        Some(p) => Some(p@),
        None => None::<Json>,
    };
    match params {
        Some(p) => v.push((owned("params"), p)),
        None => {},
    }
    let r = object(v);
    proof {
        let want = match rpc(id, method@, pv) {
            Json::Object(e) => e,
            _ => Seq::empty(),
        };
        assert(v@.map_values(|e: (String, JsonValue)| (e.0@, e.1@)) =~= want);
    }
    r
}

/// The parameters of `initialize`.
pub open spec fn init_params() -> Json {
    Json::Object(
        seq![
            ("capabilities"@, Json::Object(seq![("tools"@, Json::Object(seq![]))])),
            (
                "clientInfo"@,
                Json::Object(
                    seq![("name"@, Json::Str("vesper"@)), ("version"@, Json::Str("0.1.0"@))],
                ),
            ),
            ("protocolVersion"@, Json::Str("2024-11-05"@)),
        ],
    )
}

/// The `initialize` request with id `id`.
pub fn initialize_request(id: u64) -> (r: JsonValue)
    ensures
        r@ == rpc(Some(id), "initialize"@, Some(init_params())),
{
    let tv = vec![(owned("tools"), JsonValue::empty_object())];
    proof {
        assert(tv@.map_values(|e: (String, JsonValue)| (e.0@, e.1@)) =~= seq![
            ("tools"@, Json::Object(seq![])),
        ]);
    }
    let tools = object(tv);
    let iv = vec![(owned("name"), jstr("vesper")), (owned("version"), jstr("0.1.0"))];
    proof {
        assert(iv@.map_values(|e: (String, JsonValue)| (e.0@, e.1@)) =~= seq![
            ("name"@, Json::Str("vesper"@)),
            ("version"@, Json::Str("0.1.0"@)),
        ]);
    }
    let info = object(iv);
    let caps = vec![(owned("capabilities"), tools), (owned("clientInfo"), info), (owned("protocolVersion"), jstr("2024-11-05"))];
    proof {
        assert(caps@.map_values(|e: (String, JsonValue)| (e.0@, e.1@)) =~= match init_params() {
            Json::Object(e) => e,
            _ => Seq::empty(),
        });
    }
    let params = object(caps);
    rpc_message(Some(id), "initialize", Some(params))
}

/// The notification that initialization is done.
pub fn initialized_notification() -> (r: JsonValue)
    ensures
        r@ == rpc(None, "notifications/initialized"@, None),
{
    rpc_message(None, "notifications/initialized", None)
}

/// The `tools/list` request with id `id`.
pub fn list_request(id: u64) -> (r: JsonValue)
    ensures
        r@ == rpc(Some(id), "tools/list"@, Some(Json::Object(seq![]))),
{
    let p = JsonValue::empty_object();
    rpc_message(Some(id), "tools/list", Some(p))
}

/// The `tools/call` request with id `id` for the tool `name` with `arguments`.
pub fn call_request(id: u64, name: &str, arguments: &JsonValue) -> (r: JsonValue)
    ensures
        r@ == rpc(
            Some(id),
            "tools/call"@,
            Some(Json::Object(seq![("arguments"@, arguments@), ("name"@, Json::Str(name@))])),
        ),
{
    let v = vec![(owned("arguments"), arguments.duplicate()), (owned("name"), jstr(name))];
    let p = object(v);
    proof {
        assert(v@.map_values(|e: (String, JsonValue)| (e.0@, e.1@)) =~= seq![("arguments"@, arguments@), ("name"@, Json::Str(name@))]);
    }
    rpc_message(Some(id), "tools/call", Some(p))
}

/// A message as the line sent to the server (compact JSON).
pub fn message_line(m: &JsonValue) -> (r: String)
    ensures
        r@ == json_text(m@),
{
    to_json_text(m)
}

/// Whether a line read from the server is the reply awaited: not a notification (a `method`
/// without an `id`), and, where an id is expected, one with that id.
pub open spec fn is_reply(parsed: Json, expect: Option<Json>) -> bool {
    !(json_get(parsed, "method"@) is Some && json_get(parsed, "id"@) is None) && match expect {
        Some(e) => json_get(parsed, "id"@) == Some(e),
        None => true,
    }
}

/// Whether a parsed line is the reply awaited (see `is_reply`).
pub fn reply_matches(parsed: &JsonValue, expect: Option<&JsonValue>) -> (r: bool)
    ensures
        r == is_reply(
            parsed@,
            match expect {
                Some(e) => Some(e@),
                None => None,
            },
        ),
{
    if parsed.get("method").is_some() && parsed.get("id").is_none() {
        return false;
    }
    match expect {
        Some(e) => match parsed.get("id") {
            Some(i) => json_equal(i, e),
            None => false,
        },
        None => true,
    }
}

/// The tools of a `tools/list` reply: each entry of `result.tools` with a non-empty string
/// `name`, its `description` (or empty) and `inputSchema` (or an empty object schema).
pub open spec fn listed_tools(server: Seq<char>, items: Seq<Json>) -> Seq<
    (Seq<char>, Seq<char>, Seq<char>, Seq<char>, Json),
>
    decreases items.len(),
{
    if items.len() == 0 {
        seq![]
    } else {
        let r = listed_tools(server, items.drop_last());
        let t = items.last();
        let name = match json_get(t, "name"@) {
            Some(v) => match json_str(v) {
                Some(s) => s,
                None => seq![],
            },
            None => seq![],
        };
        if name.len() == 0 {
            r
        } else {
            let description = match json_get(t, "description"@) {
                Some(v) => match json_str(v) {
                    Some(s) => s,
                    None => seq![],
                },
                None => seq![],
            };
            let schema = match json_get(t, "inputSchema"@) {
                Some(s) => s,
                None => empty_schema(),
            };
            r.push((server, name, qualified_name(server, name), description, schema))
        }
    }
}

/// `{"properties": {}, "type": "object"}`.
pub open spec fn empty_schema() -> Json {
    Json::Object(seq![("properties"@, Json::Object(seq![])), ("type"@, Json::Str("object"@))])
}

/// The entries of `result.tools` of a reply (none where it is missing).
pub open spec fn listing_items(listed: Json) -> Seq<Json> {
    match json_get(listed, "result"@) {
        Some(r) => match json_get(r, "tools"@) {
            Some(t) => match json_array(t) {
                Some(a) => a,
                None => seq![],
            },
            None => seq![],
        },
        None => seq![],
    }
}

/// The empty object schema, computed.
fn empty_schema_exec() -> (r: JsonValue)
    ensures
        r@ == empty_schema(),
{
    let v = vec![(owned("properties"), JsonValue::empty_object()), (owned("type"), jstr("object"))];
    let r = object(v);
    proof {
        assert(v@.map_values(|e: (String, JsonValue)| (e.0@, e.1@)) =~= seq![("properties"@, Json::Object(seq![])), ("type"@, Json::Str("object"@))]);
    }
    r
}

/// A string member of a value, or the empty text.
fn str_member(v: &JsonValue, key: &str) -> (r: String)
    ensures
        r@ == match json_get(v@, key@) {
            Some(x) => match json_str(x) {
                Some(s) => s,
                None => seq![],
            },
            None => seq![],
        },
{
    match v.get(key) {
        Some(x) => match x.as_str() {
            Some(s) => s.clone(),
            None => String::new(),
        },
        None => String::new(),
    }
}

/// The tools the server `server` lists in its `tools/list` reply.
pub fn tools_from_listing(server: &str, listed: &JsonValue) -> (r: Vec<McpToolInfo>)
    ensures
        infos_view(r@) == listed_tools(server@, listing_items(listed@)),
{
    let empty: Vec<JsonValue> = Vec::new();
    let items: &Vec<JsonValue> = match listed.get("result") {
        Some(res) => match res.get("tools") {
            Some(t) => match t.as_array() {
                Some(a) => a,
                None => &empty,
            },
            None => &empty,
        },
        None => &empty,
    };
    let ghost iv = items@.map_values(|x: JsonValue| x@);
    proof {
        assert(iv =~= listing_items(listed@));
    }
    let mut out: Vec<McpToolInfo> = Vec::new();
    let mut i: usize = 0;
    while i < items.len()
        invariant
            i <= items@.len(),
            iv == items@.map_values(|x: JsonValue| x@),
            infos_view(out@) == listed_tools(server@, iv.take(i as int)),
        decreases items@.len() - i,
    {
        let t = &items[i];
        proof {
            assert(iv.take(i + 1).drop_last() =~= iv.take(i as int));
            assert(iv.take(i + 1).last() == t@);
        }
        let name = str_member(t, "name");
        if !name.as_str().is_empty() {
            let description = str_member(t, "description");
            let schema = match t.get("inputSchema") {
                Some(s) => s.duplicate(),
                None => empty_schema_exec(),
            };
            let qualified = qualify(server, name.as_str());
            let info = McpToolInfo { server: owned(server), name, qualified, description, input_schema: schema };
            let ghost before = out@;
            out.push(info);
            proof {
                assert(infos_view(out@) =~= infos_view(before).push(info_view(info)));
            }
        }
        i += 1;
    }
    proof {
        assert(iv.take(iv.len() as int) =~= iv);
    }
    out
}

/// The text of a `tools/call` reply: an `error` is reported as one; else the texts of the
/// `content` blocks of `result` (a block without `text` shown as JSON), one per line, or
/// the whole `result` as JSON where there are none.
pub open spec fn call_outcome(resp: Json) -> Result<Seq<char>, Seq<char>> {
    match json_get(resp, "error"@) {
        Some(e) => Err("MCP tool error: "@ + json_text(e)),
        None => {
            let result = match json_get(resp, "result"@) {
                Some(r) => r,
                None => Json::Null,
            };
            let blocks = match json_get(result, "content"@) {
                Some(c) => match json_array(c) {
                    Some(a) => a,
                    None => seq![],
                },
                None => seq![],
            };
            if blocks.len() > 0 {
                Ok(join_seq(block_texts(blocks), "\n"@))
            } else {
                Ok(json_text(result))
            }
        },
    }
}

/// The text of each content block.
pub open spec fn block_texts(blocks: Seq<Json>) -> Seq<Seq<char>> {
    blocks.map_values(
        |b: Json|
            match json_get(b, "text"@) {
                Some(v) => match json_str(v) {
                    Some(s) => s,
                    None => json_text(b),
                },
                None => json_text(b),
            },
    )
}

/// The text of a `tools/call` reply, or its error.
pub fn call_result_text(resp: &JsonValue) -> (r: Result<String, ToolError>)
    ensures
        match r {
            Ok(s) => call_outcome(resp@) == Ok::<Seq<char>, Seq<char>>(s@),
            Err(e) => call_outcome(resp@) == Err::<Seq<char>, Seq<char>>(e.message@),
        },
{
    if let Some(e) = resp.get("error") {
        let mut m = owned("MCP tool error: ");
        let t = to_json_text(e);
        push_str(&mut m, t.as_str());
        return Err(ToolError { message: m });
    }
    let null = JsonValue::Null;
    let result: &JsonValue = match resp.get("result") {
        Some(r) => r,
        None => &null,
    };
    let empty: Vec<JsonValue> = Vec::new();
    let blocks: &Vec<JsonValue> = match result.get("content") {
        Some(c) => match c.as_array() {
            Some(a) => a,
            None => &empty,
        },
        None => &empty,
    };
    let ghost bv = blocks@.map_values(|x: JsonValue| x@);
    proof {
        let result_v = match json_get(resp@, "result"@) {
            Some(r) => r,
            None => Json::Null,
        };
        assert(result@ == result_v);
        assert(bv =~= match json_get(result_v, "content"@) {
            Some(c) => match json_array(c) {
                Some(a) => a,
                None => seq![],
            },
            None => seq![],
        });
    }
    if blocks.len() > 0 {
        let mut texts: Vec<String> = Vec::new();
        let mut i: usize = 0;
        while i < blocks.len()
            invariant
                i <= blocks@.len(),
                bv == blocks@.map_values(|x: JsonValue| x@),
                views(texts@) == block_texts(bv.take(i as int)),
            decreases blocks@.len() - i,
        {
            let b = &blocks[i];
            let t = match b.get("text") {
                Some(v) => match v.as_str() {
                    Some(s) => s.clone(),
                    None => to_json_text(b),
                },
                None => to_json_text(b),
            };
            let ghost before = texts@;
            texts.push(t);
            proof {
                assert(views(texts@) =~= views(before).push(t@));
                assert(block_texts(bv.take(i + 1)) =~= block_texts(bv.take(i as int)).push(t@));
            }
            i += 1;
        }
        proof {
            assert(bv.take(bv.len() as int) =~= bv);
        }
        return Ok(join(&texts, "\n"));
    }
    Ok(to_json_text(result))
}

// ---------------------------------------------------------------------------
// The catalog of connected servers
// ---------------------------------------------------------------------------

/// A connected server and the tools it offers.
#[derive(Debug)]
pub struct McpServer {
    pub name: String,
    pub tools: Vec<McpToolInfo>,
}

/// The connected plugin servers, in the order they were connected.
#[derive(Debug)]
pub struct McpHub {
    pub servers: Vec<McpServer>,
}

/// The tools of all servers, in order.
pub open spec fn all_tools(servers: Seq<McpServer>) -> Seq<(Seq<char>, Seq<char>, Seq<char>, Seq<char>, Json)>
    decreases servers.len(),
{
    if servers.len() == 0 {
        seq![]
    } else {
        all_tools(servers.drop_last()) + infos_view(servers.last().tools@)
    }
}

/// The catalog lines of the tools: `- qualified — description` (the name where there is no
/// description).
pub open spec fn catalog_text(tools: Seq<(Seq<char>, Seq<char>, Seq<char>, Seq<char>, Json)>) -> Seq<char>
    decreases tools.len(),
{
    if tools.len() == 0 {
        seq![]
    } else {
        let t = tools.last();
        catalog_text(tools.drop_last()) + "- "@ + t.2 + " — "@ + (if t.3.len() == 0 {
            t.1
        } else {
            t.3
        }) + "\n"@
    }
}

/// The native spec of a plugin tool: its qualified name, `[MCP:server]` before its
/// description, and its input schema (an empty object schema where that is null).
pub open spec fn native_spec(t: (Seq<char>, Seq<char>, Seq<char>, Seq<char>, Json)) -> (Seq<char>, Seq<char>, Json) {
    (t.2, "[MCP:"@ + t.0 + "] "@ + t.3, if t.4 == Json::Null {
        empty_schema()
    } else {
        t.4
    })
}

/// The summary of the servers: `name (N tools)` each, joined with `, `.
pub open spec fn server_summaries(servers: Seq<McpServer>) -> Seq<Seq<char>> {
    servers.map_values(
        |s: McpServer| s.name@ + " ("@ + crate::text::dec(s.tools@.len()) + " tools)"@,
    )
}

impl McpHub {
    /// No servers.
    pub fn empty() -> (r: McpHub)
        ensures
            r.servers@.len() == 0,
    {
        McpHub { servers: Vec::new() }
    }

    /// Adds a connected server with the tools it listed.
    pub fn add_server(&mut self, name: String, tools: Vec<McpToolInfo>)
        ensures
            final(self).servers@.len() == old(self).servers@.len() + 1,
            final(self).servers@.drop_last() == old(self).servers@,
            final(self).servers@.last().name@ == name@,
            infos_view(final(self).servers@.last().tools@) == infos_view(tools@),
    {
        let ghost before = self.servers@;
        self.servers.push(McpServer { name, tools });
        proof {
            assert(self.servers@.drop_last() =~= before);
        }
    }

    /// Whether no server is connected.
    pub fn is_empty(&self) -> (r: bool)
        ensures
            r == (self.servers@.len() == 0),
    {
        self.servers.len() == 0
    }

    /// Every tool of every server, in order.
    pub fn tools(&self) -> (r: Vec<McpToolInfo>)
        ensures
            infos_view(r@) == all_tools(self.servers@),
    {
        let mut out: Vec<McpToolInfo> = Vec::new();
        let mut i: usize = 0;
        while i < self.servers.len()
            invariant
                i <= self.servers@.len(),
                infos_view(out@) == all_tools(self.servers@.take(i as int)),
            decreases self.servers@.len() - i,
        {
            let s = &self.servers[i];
            let ghost start = infos_view(out@);
            let mut k: usize = 0;
            while k < s.tools.len()
                invariant
                    k <= s.tools@.len(),
                    infos_view(out@) == start + infos_view(s.tools@).take(k as int),
                decreases s.tools@.len() - k,
            {
                let ghost before = out@;
                out.push(s.tools[k].duplicate());
                proof {
                    assert(infos_view(out@) =~= infos_view(before).push(info_view(s.tools@[k as int])));
                    assert(infos_view(s.tools@).take(k + 1) =~= infos_view(s.tools@).take(k as int).push(
                        info_view(s.tools@[k as int]),
                    ));
                }
                k += 1;
            }
            proof {
                assert(infos_view(s.tools@).take(s.tools@.len() as int) =~= infos_view(s.tools@));
                let t = self.servers@.take(i + 1);
                assert(t.drop_last() =~= self.servers@.take(i as int));
                assert(t.last() == *s);
            }
            i += 1;
        }
        proof {
            assert(self.servers@.take(self.servers@.len() as int) =~= self.servers@);
        }
        out
    }

    /// The plugin tools as listed in the agent's prompt, under a heading; empty when there
    /// are none.
    pub fn catalog_lines(&self) -> (r: String)
        ensures
            r@ == if all_tools(self.servers@).len() == 0 {
                Seq::<char>::empty()
            } else {
                "MCP tools (plugins):\n"@ + catalog_text(all_tools(self.servers@))
            },
    {
        let tools = self.tools();
        if tools.len() == 0 {
            return String::new();
        }
        let mut out = owned("MCP tools (plugins):\n");
        let ghost head = out@;
        let ghost tv = infos_view(tools@);
        let mut i: usize = 0;
        while i < tools.len()
            invariant
                i <= tools@.len(),
                tv == infos_view(tools@),
                out@ == head + catalog_text(tv.take(i as int)),
            decreases tools@.len() - i,
        {
            let t = &tools[i];
            push_str(&mut out, "- ");
            push_str(&mut out, t.qualified.as_str());
            push_str(&mut out, " — ");
            if t.description.as_str().is_empty() {
                push_str(&mut out, t.name.as_str());
            } else {
                push_str(&mut out, t.description.as_str());
            }
            push_str(&mut out, "\n");
            proof {
                let q = tv.take(i + 1);
                assert(q.drop_last() =~= tv.take(i as int));
                assert(q.last() == info_view(*t));
                assert(out@ =~= head + catalog_text(q));
            }
            i += 1;
        }
        proof {
            assert(tv.take(tv.len() as int) =~= tv);
        }
        out
    }

    /// The plugin tools as native tool specs: the qualified name, `[MCP:server]` before the
    /// description, and the input schema (an empty object schema where it is null).
    pub fn ollama_specs(&self) -> (r: Vec<ToolSpec>)
        ensures
            r@.len() == all_tools(self.servers@).len(),
            forall|k: int|
                0 <= k < r@.len() ==> (spec_view(#[trigger] r@[k]) == native_spec(
                    all_tools(self.servers@)[k],
                ) && r@[k].type_@ == "function"@),
    {
        let tools = self.tools();
        let ghost tv = infos_view(tools@);
        let mut out: Vec<ToolSpec> = Vec::new();
        let mut i: usize = 0;
        while i < tools.len()
            invariant
                i <= tools@.len(),
                tv == infos_view(tools@),
                tv == all_tools(self.servers@),
                out@.len() == i,
                forall|k: int|
                    0 <= k < i ==> (spec_view(#[trigger] out@[k]) == native_spec(tv[k])
                        && out@[k].type_@ == "function"@),
            decreases tools@.len() - i,
        {
            let t = &tools[i];
            let mut d = owned("[MCP:");
            push_str(&mut d, t.server.as_str());
            push_str(&mut d, "] ");
            push_str(&mut d, t.description.as_str());
            let parameters = if t.input_schema.is_null() {
                empty_schema_exec()
            } else {
                t.input_schema.duplicate()
            };
            out.push(ToolSpec {
                type_: owned("function"),
                function: ToolFunctionSpec { name: t.qualified.clone(), description: d, parameters },
            });
            proof {
                assert(tv[i as int] == info_view(*t));
                assert(spec_view(out@[i as int]) == native_spec(tv[i as int]));
            }
            i += 1;
        }
        proof {
            assert forall|k: int| 0 <= k < out@.len() implies (spec_view(#[trigger] out@[k])
                == native_spec(all_tools(self.servers@)[k]) && out@[k].type_@ == "function"@) by {
                assert(tv[k] == all_tools(self.servers@)[k]);
            }
        }
        out
    }

    /// Whether a tool name is one of the plugin tools.
    pub fn is_mcp_tool(&self, name: &str) -> (r: bool)
        ensures
            r == exists|k: int|
                0 <= k < all_tools(self.servers@).len() && (#[trigger] all_tools(
                    self.servers@,
                )[k]).2 == name@,
    {
        let tools = self.tools();
        let ghost tv = infos_view(tools@);
        let mut i: usize = 0;
        while i < tools.len()
            invariant
                i <= tools@.len(),
                tv == infos_view(tools@),
                tv == all_tools(self.servers@),
                forall|k: int| 0 <= k < i ==> (#[trigger] tv[k]).2 != name@,
            decreases tools@.len() - i,
        {
            if eq_str(tools[i].qualified.as_str(), name) {
                proof {
                    assert(tv[i as int].2 == name@);
                }
                return true;
            }
            proof {
                assert(tv[i as int] == info_view(tools@[i as int]));
            }
            i += 1;
        }
        false
    }

    /// Where a plugin tool lives: the first server offering `qualified` and the position of
    /// the tool among its tools.
    pub fn find_tool(&self, qualified: &str) -> (r: Option<(usize, usize)>)
        ensures
            match r {
                Some((s, k)) => s < self.servers@.len() && k < self.servers@[s as int].tools@.len()
                    && self.servers@[s as int].tools@[k as int].qualified@ == qualified@
                    && (forall|a: int, q: int|
                    0 <= a < s && 0 <= q < self.servers@[a].tools@.len()
                        ==> self.servers@[a].tools@[q].qualified@ != qualified@) && (forall|q: int|
                    0 <= q < k ==> self.servers@[s as int].tools@[q].qualified@ != qualified@),
                None => forall|a: int, q: int|
                    0 <= a < self.servers@.len() && 0 <= q < self.servers@[a].tools@.len()
                        ==> self.servers@[a].tools@[q].qualified@ != qualified@,
            },
    {
        let mut s: usize = 0;
        while s < self.servers.len()
            invariant
                s <= self.servers@.len(),
                forall|a: int, q: int|
                    0 <= a < s && 0 <= q < self.servers@[a].tools@.len()
                        ==> self.servers@[a].tools@[q].qualified@ != qualified@,
            decreases self.servers@.len() - s,
        {
            let tools = &self.servers[s].tools;
            let mut k: usize = 0;
            while k < tools.len()
                invariant
                    s < self.servers@.len(),
                    *tools == self.servers@[s as int].tools,
                    k <= tools@.len(),
                    forall|q: int| 0 <= q < k ==> tools@[q].qualified@ != qualified@,
                    forall|a: int, q: int|
                        0 <= a < s && 0 <= q < self.servers@[a].tools@.len()
                            ==> self.servers@[a].tools@[q].qualified@ != qualified@,
                decreases tools@.len() - k,
            {
                if eq_str(tools[k].qualified.as_str(), qualified) {
                    return Some((s, k));
                }
                k += 1;
            }
            s += 1;
        }
        None
    }

    /// The connected servers with their tool counts, or a note that there are none.
    pub fn summary(&self) -> (r: String)
        ensures
            r@ == if self.servers@.len() == 0 {
                "(no MCP servers connected)"@
            } else {
                join_seq(server_summaries(self.servers@), ", "@)
            },
    {
        if self.servers.len() == 0 {
            return owned("(no MCP servers connected)");
        }
        let mut parts: Vec<String> = Vec::new();
        let mut i: usize = 0;
        while i < self.servers.len()
            invariant
                i <= self.servers@.len(),
                views(parts@) == server_summaries(self.servers@).take(i as int),
            decreases self.servers@.len() - i,
        {
            let s = &self.servers[i];
            let mut p = s.name.clone();
            push_str(&mut p, " (");
            let d = crate::text::usize_to_string(s.tools.len());
            push_str(&mut p, d.as_str());
            push_str(&mut p, " tools)");
            let ghost before = parts@;
            parts.push(p);
            proof {
                assert(views(parts@) =~= views(before).push(p@));
                assert(server_summaries(self.servers@).take(i + 1) =~= server_summaries(
                    self.servers@,
                ).take(i as int).push(p@));
            }
            i += 1;
        }
        proof {
            assert(server_summaries(self.servers@).take(self.servers@.len() as int)
                =~= server_summaries(self.servers@));
        }
        join(&parts, ", ")
    }
}

/// The error of a call to a plugin tool that no server offers.
pub fn unknown_tool_error(qualified: &str) -> (r: ToolError)
    ensures
        r.message@ == "unknown MCP tool: "@ + qualified@,
{
    crate::sandbox::error_with("unknown MCP tool: ", qualified)
}

} // verus!
