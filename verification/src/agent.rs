//! The agent: its system prompt, request routing, and the tool loop of a run as a state
//! machine that the caller drives (it talks to the model, runs tools and asks the user).
use vstd::prelude::*;

use vstd::utf8::encode_utf8;

use crate::config::{mode_name, SessionMode};
use crate::json::json_text;
use crate::llm::{msgs_view, msg_view, ChatMessage};
use crate::protocol::{
    allowed_in_mode, catalog, is_mutating_name, is_readonly_name, opt_str_view, tool_catalog,
    AgentAction, ToolCall,
};
use crate::runtime::{approval_needed, needs_approval, AgentEvent, RunResult};
use crate::memory::{ProjectMemory, SessionMemory, Turn};
use crate::runtime::TodoState;
use crate::sandbox::Workspace;
use crate::text::{
    byte_len, byte_prefix, contains, contains_seq, dec, eq_str, is_boundary, join, join_seq,
    lines, lines_seq, owned, push_str, slen, spec_to_lowercase, to_lowercase, trim, trim_seq,
    u64_to_string, usize_to_string, views,
};

verus! {

// ---------------------------------------------------------------------------
// Short texts for events and traces
// ---------------------------------------------------------------------------

/// The output can be cut for an event: short enough, or byte 2500 starts a character.
pub open spec fn event_safe(s: Seq<char>) -> bool {
    slen(s) <= 2500 || is_boundary(s, 2500)
}

/// The tail added to a cut output.
pub open spec fn cut_note(n: usize) -> Seq<char> {
    "… ["@ + dec(n as nat) + " bytes total]"@
}

/// Output shortened for an event: unchanged up to 2500 bytes; otherwise its first 2500 bytes
/// and a note of its full length.
pub fn truncate_for_event(s: &str) -> (r: String)
    requires
        event_safe(s@),
    ensures
        r@ == event_text(s@),
        slen(s@) > 2500 ==> encode_utf8(r@) == encode_utf8(s@).subrange(0, 2500) + encode_utf8(
            cut_note(slen(s@)),
        ),
{
    let n = byte_len(s);
    if n <= 2500 {
        return owned(s);
    }
    let mut r = byte_prefix(s, 2500);
    let ghost head = r@;
    push_str(&mut r, "… [");
    let d = usize_to_string(n);
    push_str(&mut r, d.as_str());
    push_str(&mut r, " bytes total]");
    proof {
        assert(r@ =~= head + cut_note(n));
        crate::text::lemma_encode_concat(head, cut_note(n));
        vstd::utf8::encode_utf8_decode_utf8(head);
    }
    r
}

/// Output as shown in an event (see `truncate_for_event`).
pub open spec fn event_text(s: Seq<char>) -> Seq<char> {
    if slen(s) <= 2500 {
        s
    } else {
        vstd::utf8::decode_utf8(encode_utf8(s).subrange(0, 2500)) + cut_note(slen(s))
    }
}

/// The trace summary of tool output (see `summarize`).
pub open spec fn summary_text(s: Seq<char>) -> Seq<char> {
    let l = first_line_trimmed(s);
    if slen(l) > 80 {
        vstd::utf8::decode_utf8(encode_utf8(l).subrange(0, 80)) + "…"@
    } else if l.len() == 0 {
        "(empty)"@
    } else {
        l
    }
}

/// The first line of `s`, trimmed.
pub open spec fn first_line_trimmed(s: Seq<char>) -> Seq<char> {
    let ls = lines_seq(s);
    if ls.len() > 0 {
        trim_seq(ls[0])
    } else {
        seq![]
    }
}

/// The first line can be cut for a trace: short enough, or byte 80 starts a character.
pub open spec fn summary_safe(s: Seq<char>) -> bool {
    let l = first_line_trimmed(s);
    slen(l) <= 80 || is_boundary(l, 80)
}

/// A one-line summary of tool output: its first line trimmed, cut to 80 bytes (with `…`), or
/// `(empty)`.
pub fn summarize(s: &str) -> (r: String)
    requires
        summary_safe(s@),
    ensures
        r@ == summary_text(s@),
{
    let ls = lines(s);
    let line = if ls.len() > 0 {
        trim(ls[0].as_str())
    } else {
        String::new()
    };
    proof {
        if ls@.len() > 0 {
            assert(views(ls@)[0] == ls@[0]@);
        }
    }
    let n = byte_len(line.as_str());
    if n > 80 {
        let mut r = byte_prefix(line.as_str(), 80);
        let ghost head = r@;
        push_str(&mut r, "…");
        proof {
            vstd::utf8::encode_utf8_decode_utf8(head);
        }
        r
    } else if line.as_str().is_empty() {
        owned("(empty)")
    } else {
        line
    }
}

/// A call's fingerprint: its name, a colon, and its arguments as compact JSON.
pub open spec fn fingerprint_of(c: ToolCall) -> Seq<char> {
    c.name@ + ":"@ + json_text(c.args@)
}

/// A call's fingerprint, by which repeated failing calls are recognised.
pub fn tool_fingerprint(call: &ToolCall) -> (r: String)
    ensures
        r@ == fingerprint_of(*call),
{
    let mut r = call.name.clone();
    push_str(&mut r, ":");
    let a = crate::json::to_json_text(&call.args);
    push_str(&mut r, a.as_str());
    r
}

// ---------------------------------------------------------------------------
// Routing a request
// ---------------------------------------------------------------------------

/// Small talk answered without tools.
pub open spec fn fast_question(p: Seq<char>) -> bool {
    let l = trim_seq(spec_to_lowercase(p));
    ||| contains_seq(l, "who are you"@)
    ||| contains_seq(l, "what are you"@)
    ||| contains_seq(l, "hello"@)
    ||| contains_seq(l, "hi vesper"@)
}

/// Whether the prompt is small talk (`who are you`, `hello`, ...).
pub fn is_fast_question(prompt: &str) -> (r: bool)
    ensures
        r == fast_question(prompt@),
{
    let l = to_lowercase(prompt);
    let p = trim(l.as_str());
    let p = p.as_str();
    contains(p, "who are you") || contains(p, "what are you") || contains(p, "hello") || contains(
        p,
        "hi vesper",
    )
}

/// A request for an overview of the codebase.
pub open spec fn codebase_summary_request(p: Seq<char>) -> bool {
    let l = spec_to_lowercase(p);
    ||| contains_seq(l, "summarize"@)
    ||| contains_seq(l, "summary"@)
    ||| contains_seq(l, "overview"@)
    ||| contains_seq(l, "codebase"@)
    ||| contains_seq(l, "walk the"@)
    ||| contains_seq(l, "go through"@)
    ||| contains_seq(l, "explain the repo"@)
    ||| contains_seq(l, "explain this repo"@)
    ||| contains_seq(l, "explain the project"@)
    ||| contains_seq(l, "explain this project"@)
    ||| contains_seq(l, "what does this project"@)
    ||| contains_seq(l, "what is this"@)
    ||| contains_seq(l, "what's this"@)
    ||| contains_seq(l, "whats this"@)
    ||| contains_seq(l, "whats happening"@)
    ||| contains_seq(l, "what's happening"@)
    ||| contains_seq(l, "what is happening"@)
    ||| contains_seq(l, "whats going on"@)
    ||| contains_seq(l, "what's going on"@)
    ||| contains_seq(l, "architecture"@)
    ||| contains_seq(l, "how is this structured"@)
    ||| contains_seq(l, "map the repo"@)
    ||| contains_seq(l, "tour the code"@)
    ||| contains_seq(l, "onboard"@)
    ||| contains_seq(l, "describe this"@)
}

/// Whether the prompt asks for a codebase summary.
pub fn wants_codebase_summary(prompt: &str) -> (r: bool)
    ensures
        r == codebase_summary_request(prompt@),
{
    let l = to_lowercase(prompt);
    let p = l.as_str();
    contains(p, "summarize") || contains(p, "summary") || contains(p, "overview") || contains(
        p,
        "codebase",
    ) || contains(p, "walk the") || contains(p, "go through") || contains(p, "explain the repo")
        || contains(p, "explain this repo") || contains(p, "explain the project") || contains(
        p,
        "explain this project",
    ) || contains(p, "what does this project") || contains(p, "what is this") || contains(
        p,
        "what's this",
    ) || contains(p, "whats this") || contains(p, "whats happening") || contains(
        p,
        "what's happening",
    ) || contains(p, "what is happening") || contains(p, "whats going on") || contains(
        p,
        "what's going on",
    ) || contains(p, "architecture") || contains(p, "how is this structured") || contains(
        p,
        "map the repo",
    ) || contains(p, "tour the code") || contains(p, "onboard") || contains(p, "describe this")
}

/// How a request is handled.
#[derive(Debug, Clone, Copy, PartialEq, Eq, Structural)]
pub enum Route {
    /// A short answer from known context, without tools.
    FastAnswer,
    /// Walk the codebase and summarize it.
    Summarize,
    /// The tool loop.
    ToolLoop,
}

/// The route of a prompt: small talk that is not a summary request gets a fast answer; a
/// summary request gets a summary; anything else runs the tool loop.
pub open spec fn route_of(p: Seq<char>) -> Route {
    if fast_question(p) && !codebase_summary_request(p) {
        Route::FastAnswer
    } else if codebase_summary_request(p) {
        Route::Summarize
    } else {
        Route::ToolLoop
    }
}

/// How `Agent::run` handles a prompt.
pub fn route(prompt: &str) -> (r: Route)
    ensures
        r == route_of(prompt@),
{
    let fast = is_fast_question(prompt);
    let summary = wants_codebase_summary(prompt);
    if fast && !summary {
        Route::FastAnswer
    } else if summary {
        Route::Summarize
    } else {
        Route::ToolLoop
    }
}

// ---------------------------------------------------------------------------
// The system prompt
// ---------------------------------------------------------------------------

/// What a mode means, as told to the model.
pub open spec fn mode_help(m: SessionMode) -> Seq<char> {
    match m {
        SessionMode::Plan => "research only — mutating tools disabled"@,
        SessionMode::Ask => "mutating tools require user approval"@,
        SessionMode::Auto => "routine edits auto-approved; destructive still confirmed"@,
    }
}

/// `mode_help`, computed.
fn mode_help_text(m: SessionMode) -> (r: &'static str)
    ensures
        r@ == mode_help(m),
{
    match m {
        SessionMode::Plan => "research only — mutating tools disabled",
        SessionMode::Ask => "mutating tools require user approval",
        SessionMode::Auto => "routine edits auto-approved; destructive still confirmed",
    }
}

/// The verification line of the prompt.
pub open spec fn verify_line(verify: Option<Seq<char>>) -> Seq<char> {
    match verify {
        Some(c) => "After code changes, verification runs automatically: `"@ + c
            + "`. Fix failures before finishing."@,
        None => "If you change code, run project tests via run_shell before finishing."@,
    }
}

/// The start of the agent's system prompt.
pub const SYS_HEAD: &'static str = "You are Vesper, a local-first coding agent (Rust). Nothing leaves this machine.\nWorkspace: ";

/// The protocol and rules part of the agent's system prompt, before the tool list.
pub const SYS_PROTOCOL: &'static str = "\n\nOn EVERY turn output EXACTLY one JSON object (no markdown fences, no prose outside JSON):\n\n1) Call a tool:\n{\"action\":\"tool\",\"name\":\"list_dir\",\"args\":{\"path\":\".\"}}\n\n2) Finish:\n{\"action\":\"final\",\"message\":\"your answer to the user\"}\n\nAvailable tools:\n";

/// The rules at the end of the agent's system prompt.
pub const SYS_RULES: &'static str = "\n\nRules:\n- Answer the USER's question. Do not narrate tool failures as the final answer.\n- NEVER retry the exact same failing tool call. Pick a different path or finish.\n- Paths must come from list_dir / find_files / grep results — never invent src/main.rs.\n- For vague questions (\"what's happening?\", \"what is this?\"), read README.md if present, then give a short project overview and finish.\n- Prefer find_files/grep/read_file before editing.\n- Prefer str_replace / multi_str_replace over write_file for existing files.\n- Use update_todos for multi-step work.\n- Never invent file contents — read them.\n- Keep shell non-destructive unless required.\n- After 2–4 informative tool results, prefer action=final unless you still need a specific file.\n- README.md / project listing are ALREADY in context when provided — do NOT re-read README.md.\n- Be brief. Prefer short final answers.\n";

/// The agent's system prompt.
pub open spec fn system_prompt(
    workspace: Seq<char>,
    mode: SessionMode,
    summary: Seq<char>,
    memory: Seq<char>,
    verify: Option<Seq<char>>,
    listing: Seq<char>,
) -> Seq<char> {
    SYS_HEAD@ + workspace + "\nMode: "@ + mode_name(mode) + " ("@ + mode_help(mode) + ")\nProject: "@
        + summary + "\nTop-level entries (already known — do NOT assume src/main.rs exists):\n"@
        + listing + "\n"@ + memory + "\n"@ + verify_line(verify) + SYS_PROTOCOL@ + catalog(mode)
        + SYS_RULES@
}

/// Builds the agent's system prompt.
pub fn agent_system(
    workspace: &str,
    mode: SessionMode,
    project_summary: &str,
    memory_block: &str,
    verify: Option<&str>,
    listing: &str,
) -> (r: String)
    ensures
        r@ == system_prompt(
            workspace@,
            mode,
            project_summary@,
            memory_block@,
            match verify {
                Some(v) => Some(v@),
                None => None,
            },
            listing@,
        ),
{
    let mut out = owned(SYS_HEAD);
    push_str(&mut out, workspace);
    push_str(&mut out, "\nMode: ");
    push_str(&mut out, mode.as_str());
    push_str(&mut out, " (");
    push_str(&mut out, mode_help_text(mode));
    push_str(&mut out, ")\nProject: ");
    push_str(&mut out, project_summary);
    push_str(&mut out, "\nTop-level entries (already known — do NOT assume src/main.rs exists):\n");
    push_str(&mut out, listing);
    push_str(&mut out, "\n");
    push_str(&mut out, memory_block);
    push_str(&mut out, "\n");
    match verify {
        Some(c) => {
            push_str(&mut out, "After code changes, verification runs automatically: `");
            push_str(&mut out, c);
            push_str(&mut out, "`. Fix failures before finishing.");
        },
        None => {
            push_str(&mut out, "If you change code, run project tests via run_shell before finishing.");
        },
    }
    push_str(&mut out, SYS_PROTOCOL);
    let tools = tool_catalog(mode);
    push_str(&mut out, tools.as_str());
    push_str(&mut out, SYS_RULES);
    out
}

// ---------------------------------------------------------------------------
// The agent's state
// ---------------------------------------------------------------------------

/// The agent between requests: the workspace it works in, the conversation, the project's
/// remembered facts, the session mode, the verify command and the checklist. (Talking to the
/// model is the caller's.)
pub struct Agent {
    pub workspace: Workspace,
    pub session: SessionMemory,
    pub project_memory: ProjectMemory,
    pub mode: SessionMode,
    pub verify_command: Option<String>,
    pub todos: TodoState,
}

impl Agent {
    /// The workspace.
    pub open spec fn workspace_view(&self) -> Workspace {
        self.workspace
    }

    /// The conversation so far.
    pub open spec fn session_view(&self) -> Seq<Turn> {
        self.session@
    }

    /// The project's remembered facts.
    pub open spec fn memory_view(&self) -> ProjectMemory {
        self.project_memory
    }

    /// The checklist.
    pub open spec fn todos_view(&self) -> Seq<Seq<char>> {
        self.todos@
    }

    /// An agent in `workspace` with the facts remembered for it (loaded by the caller), in
    /// ask mode, without a verify command, a conversation or a checklist.
    pub fn new(workspace: Workspace, project_memory: ProjectMemory) -> (r: Agent)
        ensures
            r.workspace_view() == workspace,
            r.memory_view() == project_memory,
            r.mode == SessionMode::Ask,
            r.verify_command is None,
            r.session_view().len() == 0,
            r.todos_view().len() == 0,
    {
        Agent {
            workspace,
            session: SessionMemory::new(),
            project_memory,
            mode: SessionMode::Ask,
            verify_command: None,
            todos: TodoState::new(),
        }
    }

    /// The workspace.
    pub fn workspace(&self) -> (r: &Workspace)
        ensures
            *r == self.workspace_view(),
    {
        &self.workspace
    }

    /// The project's remembered facts.
    pub fn project_memory(&self) -> (r: &ProjectMemory)
        ensures
            *r == self.memory_view(),
    {
        &self.project_memory
    }

    /// The project's remembered facts, to edit in place; the rest of the agent is unchanged.
    pub fn project_memory_mut(&mut self) -> (r: &mut ProjectMemory)
        ensures
            *r == old(self).memory_view(),
            final(self).memory_view() == *final(r),
            final(self).session_view() == old(self).session_view(),
            final(self).workspace_view() == old(self).workspace_view(),
            final(self).mode == old(self).mode,
            final(self).verify_command == old(self).verify_command,
            final(self).todos == old(self).todos,
    {
        &mut self.project_memory
    }

    /// Remembers a fact for the project (see `ProjectMemory::add`).
    pub fn remember(&mut self, fact: &str)
        ensures
            views(final(self).memory_view().facts@) == crate::memory::facts_added(
                views(old(self).memory_view().facts@),
                fact@,
            ),
            final(self).session_view() == old(self).session_view(),
            final(self).workspace_view() == old(self).workspace_view(),
            final(self).mode == old(self).mode,
            final(self).verify_command == old(self).verify_command,
            final(self).todos == old(self).todos,
    {
        self.project_memory.add(fact);
    }

    /// Forgets the fact at `index` (see `ProjectMemory::forget`).
    pub fn forget(&mut self, index: usize) -> (r: Result<String, crate::memory::MemoryError>)
        ensures
            index < old(self).memory_view().facts@.len() ==> (r matches Ok(f) && f == old(
                self,
            ).memory_view().facts@[index as int] && final(self).memory_view().facts@ == old(
                self,
            ).memory_view().facts@.remove(index as int)),
            index >= old(self).memory_view().facts@.len() ==> (r matches Err(
                crate::memory::MemoryError::NoFact(i),
            ) && i == index && final(self).memory_view().facts@ == old(self).memory_view().facts@),
            final(self).session_view() == old(self).session_view(),
            final(self).workspace_view() == old(self).workspace_view(),
            final(self).mode == old(self).mode,
            final(self).verify_command == old(self).verify_command,
            final(self).todos == old(self).todos,
    {
        self.project_memory.forget(index)
    }

    /// Sets the session mode.
    pub fn set_mode(&mut self, mode: SessionMode)
        ensures
            final(self).mode == mode,
            final(self).session_view() == old(self).session_view(),
            final(self).workspace_view() == old(self).workspace_view(),
            final(self).memory_view() == old(self).memory_view(),
            final(self).verify_command == old(self).verify_command,
            final(self).todos == old(self).todos,
    {
        self.mode = mode;
    }

    /// Moves to the next mode (plan → ask → auto → plan) and returns it.
    pub fn cycle_mode(&mut self) -> (r: SessionMode)
        ensures
            r == crate::config::mode_next(old(self).mode),
            final(self).mode == r,
            final(self).session_view() == old(self).session_view(),
            final(self).workspace_view() == old(self).workspace_view(),
            final(self).memory_view() == old(self).memory_view(),
            final(self).verify_command == old(self).verify_command,
            final(self).todos == old(self).todos,
    {
        self.mode = self.mode.cycle();
        self.mode
    }

    /// Forgets the conversation.
    pub fn clear_session(&mut self)
        ensures
            final(self).session_view().len() == 0,
            final(self).mode == old(self).mode,
            final(self).workspace_view() == old(self).workspace_view(),
            final(self).memory_view() == old(self).memory_view(),
            final(self).verify_command == old(self).verify_command,
            final(self).todos == old(self).todos,
    {
        self.session.clear();
    }

    /// Moves to another workspace, with the facts remembered for it: the conversation is
    /// cleared.
    pub fn set_workspace(&mut self, workspace: Workspace, project_memory: ProjectMemory)
        ensures
            final(self).workspace_view() == workspace,
            final(self).memory_view() == project_memory,
            final(self).session_view().len() == 0,
            final(self).mode == old(self).mode,
            final(self).verify_command == old(self).verify_command,
            final(self).todos == old(self).todos,
    {
        self.workspace = workspace;
        self.project_memory = project_memory;
        self.session.clear();
    }

    /// Records a turn of the conversation.
    pub fn record(&mut self, role: &str, content: &str)
        ensures
            final(self).session_view() == old(self).session_view().push(
                Turn { role: final(self).session_view().last().role, content: final(self).session_view().last().content },
            ),
            final(self).session_view().last().role@ == role@,
            final(self).session_view().last().content@ == content@,
            final(self).workspace_view() == old(self).workspace_view(),
            final(self).memory_view() == old(self).memory_view(),
            final(self).mode == old(self).mode,
            final(self).verify_command == old(self).verify_command,
            final(self).todos == old(self).todos,
    {
        self.session.push(owned(role), owned(content));
    }

    /// The conversation.
    pub fn session(&self) -> (r: &SessionMemory)
        ensures
            r@ == self.session_view(),
    {
        &self.session
    }

    /// The checklist.
    pub fn todos(&self) -> (r: &TodoState)
        ensures
            r@ == self.todos_view(),
    {
        &self.todos
    }

    /// The parts a tool call works on: the workspace, the facts and the checklist.
    pub fn tool_context(&mut self) -> (r: crate::runtime::ToolContext<'_>)
        ensures
            *r.workspace == old(self).workspace,
            *r.memory == old(self).project_memory,
            *r.todos == old(self).todos,
            final(self).project_memory == *final(r.memory),
            final(self).todos == *final(r.todos),
            final(self).workspace == old(self).workspace,
            final(self).session == old(self).session,
            final(self).mode == old(self).mode,
            final(self).verify_command == old(self).verify_command,
    {
        crate::runtime::ToolContext {
            workspace: &self.workspace,
            memory: &mut self.project_memory,
            todos: &mut self.todos,
        }
    }
}

// ---------------------------------------------------------------------------
// The messages of a request
// ---------------------------------------------------------------------------

/// The first `n` characters of `s`.
pub open spec fn first_n(s: Seq<char>, n: nat) -> Seq<char> {
    crate::runtime::take_chars(s, n)
}

/// The README note given to the tool loop.
pub open spec fn readme_note(readme: Seq<char>) -> Seq<char> {
    "README.md (excerpt — already loaded, do not read_file again):\n"@ + first_n(readme, 700)
}

/// The last `n` turns of a conversation (all of them when fewer), as messages.
pub open spec fn recent_messages(s: Seq<Turn>, n: nat) -> Seq<(Seq<char>, Seq<char>)> {
    let k = if s.len() < n {
        s.len()
    } else {
        n
    };
    s.subrange(s.len() - k, s.len() as int).map_values(|t: Turn| (t.role@, t.content@))
}

/// Appends the last four turns of the conversation to `msgs`.
fn push_recent(msgs: &mut Vec<ChatMessage>, session: &SessionMemory)
    ensures
        msgs_view(final(msgs)@) == msgs_view(old(msgs)@) + recent_messages(session@, 4),
{
    let turns = session.recent(4);
    let ghost start = msgs_view(msgs@);
    let ghost want = recent_messages(session@, 4);
    let mut i: usize = 0;
    while i < turns.len()
        invariant
            i <= turns@.len(),
            want == recent_messages(session@, 4),
            turns@.len() == want.len(),
            forall|k: int|
                0 <= k < turns@.len() ==> (turns@[k].role@, turns@[k].content@) == #[trigger] want[k],
            msgs_view(msgs@) == start + want.take(i as int),
        decreases turns@.len() - i,
    {
        let t = turns[i];
        let ghost before = msgs@;
        msgs.push(ChatMessage { role: t.role.clone(), content: t.content.clone() });
        proof {
            assert(msgs_view(msgs@) =~= msgs_view(before).push((t.role@, t.content@)));
            assert(want.take(i + 1) =~= want.take(i as int).push(want[i as int]));
        }
        i += 1;
    }
    proof {
        assert(want.take(want.len() as int) =~= want);
    }
}

/// The opening messages of the tool loop: the system prompt, the README note where there
/// is a README, the last four turns, then the request.
pub open spec fn opening_view(
    system: Seq<char>,
    readme: Option<Seq<char>>,
    session: Seq<Turn>,
    prompt: Seq<char>,
) -> Seq<(Seq<char>, Seq<char>)> {
    seq![("system"@, system)] + (match readme {
        Some(r) => seq![("system"@, readme_note(r))],
        None => seq![],
    }) + recent_messages(session, 4) + seq![("user"@, prompt)]
}

/// The opening messages of a run of the tool loop.
pub fn opening_messages(
    system: String,
    readme: Option<&str>,
    session: &SessionMemory,
    prompt: &str,
) -> (r: Vec<ChatMessage>)
    ensures
        msgs_view(r@) == opening_view(
            system@,
            match readme {
                Some(x) => Some(x@),
                None => None,
            },
            session@,
            prompt@,
        ),
{
    let ghost sys = system@;
    let mut msgs: Vec<ChatMessage> = Vec::new();
    msgs.push(ChatMessage::system(system));
    match readme {
        Some(r) => {
            let mut note = owned("README.md (excerpt — already loaded, do not read_file again):\n");
            let head = crate::runtime::first_chars(r, 700);
            push_str(&mut note, head.as_str());
            msgs.push(ChatMessage::system(note));
        },
        None => {},
    }
    let ghost mid = msgs_view(msgs@);
    push_recent(&mut msgs, session);
    let ghost m2 = msgs@;
    msgs.push(ChatMessage::user(owned(prompt)));
    proof {
        assert(msgs_view(msgs@) =~= msgs_view(m2).push(("user"@, prompt@)));
        assert(msgs_view(msgs@) =~= opening_view(
            sys,
            match readme {
                Some(x) => Some(x@),
                None => None,
            },
            session@,
            prompt@,
        ));
    }
    msgs
}

/// The system message of a plain question: who the agent is.
pub const CHAT_SYSTEM: &'static str = "You are Vesper, a local coding agent.\nBe concise, precise, and practical. Prefer actionable steps over fluff.\n";

/// The context of a plain question: the workspace, the project, its top entries and facts.
pub open spec fn ask_context(workspace: Seq<char>, summary: Seq<char>, listing: Seq<char>, memory: Seq<char>) -> Seq<char> {
    "Workspace: "@ + workspace + "\nProject: "@ + summary + "\nTop-level:\n"@ + listing + "\n"@
        + memory
}

/// The messages of a plain question (without tools): who the agent is, the context, the
/// last four turns, and the question.
pub fn ask_messages(
    workspace: &str,
    summary: &str,
    listing: &str,
    memory: &str,
    session: &SessionMemory,
    prompt: &str,
) -> (r: Vec<ChatMessage>)
    ensures
        msgs_view(r@) == seq![("system"@, CHAT_SYSTEM@), ("system"@, ask_context(workspace@, summary@, listing@, memory@))]
            + recent_messages(session@, 4) + seq![("user"@, prompt@)],
{
    let mut msgs: Vec<ChatMessage> = Vec::new();
    msgs.push(ChatMessage::system(owned(CHAT_SYSTEM)));
    let mut c = owned("Workspace: ");
    push_str(&mut c, workspace);
    push_str(&mut c, "\nProject: ");
    push_str(&mut c, summary);
    push_str(&mut c, "\nTop-level:\n");
    push_str(&mut c, listing);
    push_str(&mut c, "\n");
    push_str(&mut c, memory);
    msgs.push(ChatMessage::system(c));
    push_recent(&mut msgs, session);
    let ghost m2 = msgs@;
    msgs.push(ChatMessage::user(owned(prompt)));
    proof {
        assert(msgs_view(msgs@) =~= msgs_view(m2).push(("user"@, prompt@)));
    }
    msgs
}

/// The system prompt of a short answer without tools.
pub open spec fn fast_system(
    workspace: Seq<char>,
    summary: Seq<char>,
    listing: Seq<char>,
    memory: Seq<char>,
    readme: Seq<char>,
) -> Seq<char> {
    "You are Vesper. Answer briefly (4–8 sentences max) about this local project.\nWorkspace: "@
        + workspace + "\nProject: "@ + summary + "\nTop-level:\n"@ + listing + "\n"@ + memory
        + "\nREADME excerpt:\n"@ + first_n(readme, 600) + "\nNo tools. Plain text only — no JSON."@
}

/// The system prompt of a short answer (the README may be empty).
pub fn fast_answer_system(
    workspace: &str,
    summary: &str,
    listing: &str,
    memory: &str,
    readme: &str,
) -> (r: String)
    ensures
        r@ == fast_system(workspace@, summary@, listing@, memory@, readme@),
{
    let mut s = owned(
        "You are Vesper. Answer briefly (4–8 sentences max) about this local project.\nWorkspace: ",
    );
    push_str(&mut s, workspace);
    push_str(&mut s, "\nProject: ");
    push_str(&mut s, summary);
    push_str(&mut s, "\nTop-level:\n");
    push_str(&mut s, listing);
    push_str(&mut s, "\n");
    push_str(&mut s, memory);
    push_str(&mut s, "\nREADME excerpt:\n");
    let head = crate::runtime::first_chars(readme, 600);
    push_str(&mut s, head.as_str());
    push_str(&mut s, "\nNo tools. Plain text only — no JSON.");
    s
}

/// The instructions for summarizing a codebase.
pub const SUMMARY_SYSTEM: &'static str = "You are Vesper. You just walked this repository's important files.\nWrite a clear codebase summary like a senior engineer onboarding a teammate.\n\nStructure:\n1) What this project is (1 short paragraph)\n2) Architecture / crates or packages (bullets)\n3) Key entrypoints and what they do\n4) How to run / verify (if evident)\n5) Notable design choices or risks\n\nBe concrete — name real files and symbols. No JSON. No fluff.\n";

/// The system prompt of a codebase summary: the instructions, then the user's focus where
/// one is given (not blank).
pub open spec fn summary_system(focus: Option<Seq<char>>) -> Seq<char> {
    SUMMARY_SYSTEM@ + match focus {
        Some(f) => if trim_seq(f).len() == 0 {
            Seq::<char>::empty()
        } else {
            "User focus: "@ + f + "\n"@
        },
        None => Seq::<char>::empty(),
    }
}

/// The system prompt of a codebase summary.
pub fn summary_system_prompt(focus: Option<&str>) -> (r: String)
    ensures
        r@ == summary_system(
            match focus {
                Some(f) => Some(f@),
                None => None,
            },
        ),
{
    let mut s = owned(SUMMARY_SYSTEM);
    match focus {
        Some(f) => {
            let t = trim(f);
            if !t.as_str().is_empty() {
                push_str(&mut s, "User focus: ");
                push_str(&mut s, f);
                push_str(&mut s, "\n");
            }
        },
        None => {},
    }
    s
}

/// The answer in a reply made without tools: the message of a final action, else the whole
/// reply trimmed.
pub fn reply_answer(reply: &str, action: AgentAction) -> (r: String)
    ensures
        r@ == match action {
            AgentAction::Final { message } => message@,
            AgentAction::Tool(_) => trim_seq(reply@),
        },
{
    match action {
        AgentAction::Final { message } => message,
        AgentAction::Tool(_) => trim(reply),
    }
}

/// The snapshot of the workspace shown by `context`.
pub open spec fn status_view(
    summary: Seq<char>,
    mode: SessionMode,
    verify: Option<Seq<char>>,
    git_status: Seq<char>,
    entries: Seq<Seq<char>>,
    memory: Seq<char>,
) -> Seq<char> {
    "project: "@ + summary + "\nmode: "@ + mode_name(mode) + "\nverify: "@ + match verify {
        Some(v) => v,
        None => "(none)"@,
    } + "\n\ngit status:\n"@ + git_status + "\n\nentries:\n"@ + join_seq(entries, "\n"@)
        + "\n\nmemory:\n"@ + memory
}

/// The snapshot of the workspace: project, mode, verify command, git status, top entries
/// and remembered facts.
pub fn status_context(
    summary: &str,
    mode: SessionMode,
    verify: Option<&str>,
    git_status: &str,
    entries: &Vec<String>,
    memory: &str,
) -> (r: String)
    ensures
        r@ == status_view(
            summary@,
            mode,
            match verify {
                Some(v) => Some(v@),
                None => None,
            },
            git_status@,
            views(entries@),
            memory@,
        ),
{
    let mut s = owned("project: ");
    push_str(&mut s, summary);
    push_str(&mut s, "\nmode: ");
    push_str(&mut s, mode.as_str());
    push_str(&mut s, "\nverify: ");
    match verify {
        Some(v) => push_str(&mut s, v),
        None => push_str(&mut s, "(none)"),
    }
    push_str(&mut s, "\n\ngit status:\n");
    push_str(&mut s, git_status);
    push_str(&mut s, "\n\nentries:\n");
    let e = join(entries, "\n");
    push_str(&mut s, e.as_str());
    push_str(&mut s, "\n\nmemory:\n");
    push_str(&mut s, memory);
    s
}

} // verus!
