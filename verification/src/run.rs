//! The tool loop of one run, as a state machine. The caller performs each command (asks the
//! model, computes a preview, asks the user, runs a tool or the verify command) and hands the
//! outcome back; the machine decides what happens next and which events to report.
use vstd::prelude::*;

use crate::agent::{
    event_safe, event_text, fingerprint_of, summary_safe, summary_text, summarize,
    tool_fingerprint, truncate_for_event,
};
use crate::config::{mode_name, SessionMode};
use crate::llm::{msgs_view, ChatMessage};
use crate::memory::Turn;
use crate::protocol::{
    allowed_in_mode, is_mutating, is_mutating_name, is_readonly_name, opt_str_view, AgentAction,
    ToolCall,
};
use crate::runtime::{approval_needed, needs_approval, AgentEvent, RunResult, TodoState};
use crate::text::{dec, eq_str, join, join_seq, owned, push_str, u64_to_string, views};

verus! {

/// Where a run stands: which outcome it waits for.
#[derive(Debug, Clone, Copy, PartialEq, Eq, Structural)]
pub enum RunPhase {
    /// At the top of the loop: call `begin`.
    Ready,
    /// Waiting for the model's reply: call `on_reply`.
    AwaitReply,
    /// Waiting for the preview of the pending call: call `on_preview`.
    AwaitPreview,
    /// Waiting for the user's answer: call `on_approval`.
    AwaitApproval,
    /// Waiting for the pending call's result: call `on_tool_result`.
    AwaitTool,
    /// Waiting for the verify command after an edit: call `on_verify`.
    AwaitAutoVerify,
    /// Waiting for the verify command before finishing: call `on_verify`.
    AwaitFinalVerify,
    /// The run is over.
    Finished,
}

/// What the caller must do next.
#[derive(Debug)]
pub enum Command {
    /// Send `messages` to the model.
    Chat,
    /// Compute the preview of this call.
    Preview(ToolCall),
    /// Ask the user whether this call may run, showing the preview.
    Approve(ToolCall, String),
    /// Run this call.
    Execute(ToolCall),
    /// Run this verify command.
    Verify(String),
    /// The run is over with this result.
    Finish(RunResult),
}

/// The tools whose success triggers the verify command.
pub open spec fn is_edit_name(n: Seq<char>) -> bool {
    n == "write_file"@ || n == "str_replace"@ || n == "multi_str_replace"@ || n == "delete_file"@
}

/// The tools whose success counts as an informative result.
pub open spec fn is_informative_name(n: Seq<char>) -> bool {
    n == "list_dir"@ || n == "find_files"@ || n == "grep"@ || n == "read_file"@ || n
        == "git_status"@
}

/// `true` or `false`.
pub open spec fn bool_text(b: bool) -> Seq<char> {
    if b {
        "true"@
    } else {
        "false"@
    }
}

/// The message telling the model a tool's outcome.
pub open spec fn result_message(name: Seq<char>, ok: bool, text: Seq<char>) -> Seq<char> {
    "TOOL_RESULT name="@ + name + " ok="@ + bool_text(ok) + "\n"@ + text
}

/// The refusal of a call that already failed.
pub open spec fn repeat_refusal(fp: Seq<char>) -> Seq<char> {
    "Refusing repeated failing call `"@ + fp
        + "`. Use a path from prior list_dir/find_files results, or emit action=final now."@
}

/// The refusal of a call the mode does not allow.
pub open spec fn mode_refusal(name: Seq<char>, mode: SessionMode) -> Seq<char> {
    "Tool `"@ + name + "` blocked in "@ + mode_name(mode) + " mode."@
}

/// The refusal of a call the user denied.
pub open spec fn user_refusal(name: Seq<char>) -> Seq<char> {
    "Tool `"@ + name + "` denied by user/policy."@
}

/// The hint appended after enough informative results.
pub const FINAL_HINT: &'static str = "\n\nHINT: You have enough context for many questions. Prefer {\"action\":\"final\",\"message\":\"...\"} now unless you need one specific file.";

/// The message after an automatic verification.
pub open spec fn auto_verify_message(cmd: Seq<char>, ok: bool, text: Seq<char>) -> Seq<char> {
    "AUTO_VERIFY command=`"@ + cmd + "` ok="@ + bool_text(ok) + "\n"@ + text
}

/// The message after a failed verification before finishing.
pub open spec fn verify_failed_message(cmd: Seq<char>, text: Seq<char>) -> Seq<char> {
    "VERIFY_FAILED command=`"@ + cmd + "`\n"@ + text + "\nFix the failures, then finish."@
}

/// The final message of a run that used up its steps.
pub open spec fn stop_message(max_steps: u32, trace: Seq<Seq<char>>) -> Seq<char> {
    "Stopped after "@ + dec(max_steps as nat) + " tool steps.\n"@ + join_seq(trace, "\n"@)
}

/// The trace line of a tool outcome.
pub open spec fn trace_line(name: Seq<char>, ok: bool, output: Seq<char>) -> Seq<char> {
    (if ok {
        "ok"@
    } else {
        "err"@
    }) + " "@ + name + " → "@ + summary_text(output)
}

/// `new` is `old` with events appended.
pub open spec fn appended<T>(new: Seq<T>, old: Seq<T>) -> bool {
    new.len() >= old.len() && new.subrange(0, old.len() as int) == old
}

/// Builds `result_message(name, ok, text)`.
fn result_message_text(name: &str, ok: bool, text: &str) -> (r: String)
    ensures
        r@ == result_message(name@, ok, text@),
{
    let mut m = owned("TOOL_RESULT name=");
    push_str(&mut m, name);
    push_str(&mut m, " ok=");
    push_str(&mut m, if ok { "true" } else { "false" });
    push_str(&mut m, "\n");
    push_str(&mut m, text);
    m
}

/// Whether `name` is an edit tool.
fn is_edit(name: &str) -> (r: bool)
    ensures
        r == is_edit_name(name@),
{
    eq_str(name, "write_file") || eq_str(name, "str_replace") || eq_str(name, "multi_str_replace")
        || eq_str(name, "delete_file")
}

/// Whether `name` is an informative tool.
fn is_informative(name: &str) -> (r: bool)
    ensures
        r == is_informative_name(name@),
{
    eq_str(name, "list_dir") || eq_str(name, "find_files") || eq_str(name, "grep") || eq_str(
        name,
        "read_file",
    ) || eq_str(name, "git_status")
}

/// Builds `trace_line(name, ok, output)`.
fn trace_line_text(name: &str, ok: bool, output: &str) -> (r: String)
    requires
        summary_safe(output@),
    ensures
        r@ == trace_line(name@, ok, output@),
{
    let mut t = owned(if ok { "ok" } else { "err" });
    push_str(&mut t, " ");
    push_str(&mut t, name);
    push_str(&mut t, " → ");
    let s = summarize(output);
    push_str(&mut t, s.as_str());
    t
}

/// The message of a tool outcome, with the hint when it applies.
pub open spec fn tool_message(name: Seq<char>, ok: bool, output: Seq<char>, hint: bool) -> Seq<char> {
    result_message(name, ok, output) + if hint {
        FINAL_HINT@
    } else {
        Seq::<char>::empty()
    }
}

/// A call was refused with `denied`: after the reply (at `m0`) the model is told, and after
/// the call's start (at `e0`) the refusal is reported.
pub open spec fn refused_with(
    run: AgentRun,
    events: Seq<AgentEvent>,
    m0: int,
    e0: int,
    name: Seq<char>,
    denied: Seq<char>,
) -> bool {
    &&& run.messages@.len() == m0 + 2
    &&& run.messages@.last().role@ == "user"@
    &&& run.messages@.last().content@ == result_message(name, false, denied)
    &&& events.len() >= e0 + 2
    &&& events[e0 + 1] matches AgentEvent::ToolEnd { ok, output, .. } && !ok && output@ == denied
}

/// The state of one run of the tool loop.
#[derive(Debug)]
pub struct AgentRun {
    pub mode: SessionMode,
    pub max_steps: u32,
    pub verify_command: Option<String>,
    /// The conversation sent to the model.
    pub messages: Vec<ChatMessage>,
    /// Tool calls made so far.
    pub steps: u32,
    /// Successful mutations not yet verified.
    pub mutations: u32,
    /// Successful informative reads.
    pub informative_ok: u32,
    /// Fingerprints of calls that failed.
    pub failed_calls: Vec<String>,
    /// One line per tool outcome.
    pub tool_trace: Vec<String>,
    pub phase: RunPhase,
    /// The call being previewed, approved or run.
    pub pending: Option<ToolCall>,
    /// Its fingerprint.
    pub pending_fp: String,
    /// Whether the user approved it.
    pub approved: bool,
    /// The answer waiting for the final verification.
    pub final_message: String,
}

/// Whether `s` is among `v`.
fn contains_string(v: &Vec<String>, s: &String) -> (r: bool)
    ensures
        r == views(v@).contains(s@),
{
    let mut i: usize = 0;
    while i < v.len()
        invariant
            i <= v@.len(),
            forall|k: int| 0 <= k < i ==> v@[k]@ != s@,
        decreases v@.len() - i,
    {
        if v[i].eq(s) {
            proof {
                assert(views(v@)[i as int] == s@);
            }
            return true;
        }
        i += 1;
    }
    proof {
        if views(v@).contains(s@) {
            let k = choose|k: int| 0 <= k < views(v@).len() && views(v@)[k] == s@;
            assert(v@[k]@ == s@);
        }
    }
    false
}

/// 1 where `b` holds, else 0.
pub open spec fn bump(b: bool) -> int {
    if b {
        1
    } else {
        0
    }
}

/// The result of the pending call is verified at once: it is a successful edit and there is a
/// verify command.
pub open spec fn auto_verifies(run: AgentRun, ok: bool) -> bool {
    ok && is_edit_name(run.pending->0.name@) && run.verify_command is Some
}

/// What `begin` does from `run`: ask the model, or finish when the steps are used up.
pub open spec fn goes_on(run: AgentRun, cmd: Command) -> bool {
    &&& run.steps < run.max_steps ==> cmd is Chat && run.phase == RunPhase::AwaitReply
    &&& run.steps >= run.max_steps ==> (cmd matches Command::Finish(r) && r.truncated
        && r.steps == run.steps && r.steps == run.max_steps
        && r.message@ == stop_message(run.max_steps, views(run.tool_trace@)))
}

impl AgentRun {
    /// The run's invariant: the steps stay within budget, and a pending call is one the mode
    /// allows, not known to fail, and (once it is to run) approved where approval is needed.
    pub open spec fn wf(&self) -> bool {
        &&& self.steps <= self.max_steps
        &&& (self.phase == RunPhase::AwaitPreview || self.phase == RunPhase::AwaitApproval
            || self.phase == RunPhase::AwaitTool) ==> self.pending_ok()
        &&& self.phase == RunPhase::AwaitTool ==> (approval_needed(
            self.mode,
            self.pending->0.name@,
            self.pending->0.args@,
        ) ==> self.approved)
        &&& (self.phase == RunPhase::AwaitAutoVerify || self.phase == RunPhase::AwaitFinalVerify)
            ==> self.verify_command is Some
        &&& (self.phase == RunPhase::AwaitReply || self.phase == RunPhase::AwaitFinalVerify)
            ==> self.steps < self.max_steps
        &&& self.informative_ok <= self.steps
        &&& self.mutations <= self.steps
        &&& (self.phase == RunPhase::AwaitPreview || self.phase == RunPhase::AwaitApproval
            || self.phase == RunPhase::AwaitTool) ==> (self.informative_ok < self.steps
            && self.mutations < self.steps)
    }

    /// The counters, the trace and the settings are those of `before`.
    pub open spec fn counters_kept(&self, before: AgentRun) -> bool {
        &&& self.mode == before.mode
        &&& self.max_steps == before.max_steps
        &&& self.verify_command == before.verify_command
        &&& self.mutations == before.mutations
        &&& self.informative_ok == before.informative_ok
        &&& self.tool_trace == before.tool_trace
    }

    /// The pending call may run: the mode allows it and it has not failed before.
    pub open spec fn pending_ok(&self) -> bool {
        &&& self.pending is Some
        &&& allowed_in_mode(self.pending->0.name@, self.mode)
        &&& self.pending_fp@ == fingerprint_of(self.pending->0)
        &&& !views(self.failed_calls@).contains(self.pending_fp@)
        &&& self.steps >= 1
    }

    /// A run about to start, with its opening messages.
    pub fn new(
        mode: SessionMode,
        max_steps: u32,
        verify_command: Option<String>,
        messages: Vec<ChatMessage>,
    ) -> (r: AgentRun)
        ensures
            r.wf(),
            r.phase == RunPhase::Ready,
            r.mode == mode,
            r.max_steps == max_steps,
            r.verify_command == verify_command,
            r.messages == messages,
            r.steps == 0,
            r.mutations == 0,
            r.informative_ok == 0,
            r.failed_calls@.len() == 0,
            r.tool_trace@.len() == 0,
    {
        AgentRun {
            mode,
            max_steps,
            verify_command,
            messages,
            steps: 0,
            mutations: 0,
            informative_ok: 0,
            failed_calls: Vec::new(),
            tool_trace: Vec::new(),
            phase: RunPhase::Ready,
            pending: None,
            pending_fp: String::new(),
            approved: false,
            final_message: String::new(),
        }
    }

    /// Ends the run.
    fn finish(&mut self, message: String, truncated: bool, events: &mut Vec<AgentEvent>) -> (cmd: Command)
        requires
            old(self).wf(),
        ensures
            final(self).wf(),
            final(self).phase == RunPhase::Finished,
            cmd matches Command::Finish(r) && r.message@ == message@ && r.steps == old(self).steps
                && r.truncated == truncated,
            final(self).steps == old(self).steps,
            final(self).counters_kept(*old(self)),
            final(self).messages == old(self).messages,
            final(self).failed_calls == old(self).failed_calls,
            final(events)@.len() == old(events)@.len() + 1,
            appended(final(events)@, old(events)@),
            final(events)@.last() matches AgentEvent::Final { message: m } && m@ == message@,
    {
        events.push(AgentEvent::Final { message: message.clone() });
        proof {
            assert(events@.subrange(0, old(events)@.len() as int) =~= old(events)@);
        }
        self.phase = RunPhase::Finished;
        self.pending = None;
        Command::Finish(RunResult { message, steps: self.steps, truncated })
    }

    /// The top of the loop: stop when the steps are used up, else ask the model.
    pub fn begin(&mut self, events: &mut Vec<AgentEvent>) -> (cmd: Command)
        requires
            old(self).wf(),
            old(self).phase == RunPhase::Ready,
        ensures
            final(self).wf(),
            final(self).steps == old(self).steps,
            final(self).messages == old(self).messages,
            final(self).failed_calls == old(self).failed_calls,
            final(self).counters_kept(*old(self)),
            appended(final(events)@, old(events)@),
            old(self).steps >= old(self).max_steps ==> (cmd matches Command::Finish(r)
                && r.truncated && r.steps == old(self).steps && r.message@ == stop_message(
                old(self).max_steps,
                views(old(self).tool_trace@),
            )) && final(self).phase == RunPhase::Finished,
            old(self).steps < old(self).max_steps ==> cmd is Chat && final(self).phase
                == RunPhase::AwaitReply && final(events)@ == old(events)@.push(
                AgentEvent::Thinking { step: (old(self).steps + 1) as u32 },
            ),
    {
        if self.steps >= self.max_steps {
            let mut msg = owned("Stopped after ");
            let d = u64_to_string(self.max_steps as u64);
            push_str(&mut msg, d.as_str());
            push_str(&mut msg, " tool steps.\n");
            let t = join(&self.tool_trace, "\n");
            push_str(&mut msg, t.as_str());
            return self.finish(msg, true, events);
        }
        events.push(AgentEvent::Thinking { step: self.steps + 1 });
        proof {
            assert(events@.subrange(0, old(events)@.len() as int) =~= old(events)@);
        }
        self.phase = RunPhase::AwaitReply;
        Command::Chat
    }

    /// Refuses the current call with `denied`, telling the model, and goes on.
    fn refuse(&mut self, name: &String, denied: String, events: &mut Vec<AgentEvent>) -> (cmd: Command)
        requires
            old(self).wf(),
            old(self).steps >= 1,
        ensures
            final(self).wf(),
            final(self).steps == old(self).steps,
            final(self).failed_calls == old(self).failed_calls,
            final(self).counters_kept(*old(self)),
            msgs_view(final(self).messages@).len() >= 1,
            final(self).messages@.drop_last() == old(self).messages@,
            final(self).messages@.last().content@ == result_message(name@, false, denied@),
            final(self).messages@.last().role@ == "user"@,
            cmd is Chat || cmd is Finish,
            cmd is Chat ==> final(self).phase == RunPhase::AwaitReply,
            final(events)@.len() >= old(events)@.len() + 1,
            appended(final(events)@, old(events)@),
            final(events)@[old(events)@.len() as int] matches AgentEvent::ToolEnd { step, ok, output }
                && step == old(self).steps && !ok && output@ == denied@,
    {
        events.push(AgentEvent::ToolEnd { step: self.steps, ok: false, output: denied.clone() });
        let m = result_message_text(name.as_str(), false, denied.as_str());
        let ghost before = self.messages@;
        self.messages.push(ChatMessage::user(m));
        proof {
            assert(self.messages@.drop_last() =~= before);
            msgs_view(self.messages@).len();
        }
        self.phase = RunPhase::Ready;
        self.pending = None;
        let ghost mid = events@;
        let cmd = self.begin(events);
        proof {
            assert(mid.subrange(0, old(events)@.len() as int) =~= old(events)@);
            assert(events@.subrange(0, mid.len() as int) == mid);
            assert(events@[old(events)@.len() as int] == mid[old(events)@.len() as int]);
            assert(events@.subrange(0, old(events)@.len() as int) =~= old(events)@);
        }
        cmd
    }

    /// The model replied: finish (verifying first if edits are unverified), refuse a repeated
    /// failing call or one the mode does not allow, or preview the call.
    pub fn on_reply(&mut self, raw: String, action: AgentAction, events: &mut Vec<AgentEvent>) -> (cmd: Command)
        requires
            old(self).wf(),
            old(self).phase == RunPhase::AwaitReply,
        ensures
            final(self).wf(),
            final(self).failed_calls == old(self).failed_calls,
            final(self).counters_kept(*old(self)),
            appended(final(events)@, old(events)@),
            final(self).messages@.len() >= old(self).messages@.len() + 1,
            final(self).messages@[old(self).messages@.len() as int].content@ == raw@,
            final(self).messages@[old(self).messages@.len() as int].role@ == "assistant"@,
            action is Tool ==> final(self).steps == old(self).steps + 1,
            action is Final ==> final(self).steps == old(self).steps,
            cmd matches Command::Preview(c) ==> final(self).phase == RunPhase::AwaitPreview
                && final(self).pending_ok() && c.name@ == final(self).pending->0.name@ && c.args@
                == final(self).pending->0.args@,
            cmd is Verify ==> final(self).phase == RunPhase::AwaitFinalVerify,
            cmd is Execute || cmd is Approve ==> false,
            action matches AgentAction::Final { message } ==> (!(old(self).mutations > 0
                && old(self).verify_command is Some) ==> (cmd matches Command::Finish(r)
                && r.message@ == message@ && !r.truncated && r.steps == old(self).steps
                && r.steps < old(self).max_steps && final(self).phase == RunPhase::Finished)),
            action matches AgentAction::Final { message } ==> (old(self).mutations > 0
                && old(self).verify_command is Some ==> (cmd matches Command::Verify(c) && c@
                == old(self).verify_command->0@ && final(self).phase == RunPhase::AwaitFinalVerify
                && final(self).final_message@ == message@)),
            action matches AgentAction::Tool(c) ==> (views(old(self).failed_calls@).contains(
                fingerprint_of(c),
            ) ==> !(cmd is Preview) && refused_with(
                *final(self),
                final(events)@,
                old(self).messages@.len() as int,
                old(events)@.len() as int,
                c.name@,
                repeat_refusal(fingerprint_of(c)),
            )),
            action matches AgentAction::Tool(c) ==> (!allowed_in_mode(c.name@, old(self).mode)
                ==> !(cmd is Preview)),
            action matches AgentAction::Tool(c) ==> (!views(old(self).failed_calls@).contains(
                fingerprint_of(c),
            ) && !allowed_in_mode(c.name@, old(self).mode) ==> refused_with(
                *final(self),
                final(events)@,
                old(self).messages@.len() as int,
                old(events)@.len() as int,
                c.name@,
                mode_refusal(c.name@, old(self).mode),
            )),
    {
        let ghost m0 = self.messages@;
        self.messages.push(ChatMessage::assistant(raw));
        proof {
            assert(self.messages@[m0.len() as int] == self.messages@.last());
        }
        match action {
            AgentAction::Final { message } => {
                if self.mutations > 0 && self.verify_command.is_some() {
                    let cmd = match &self.verify_command {
                        Some(c) => c.clone(),
                        None => String::new(),
                    };
                    self.final_message = message;
                    self.phase = RunPhase::AwaitFinalVerify;
                    proof {
                        assert(events@.subrange(0, old(events)@.len() as int) =~= old(events)@);
                    }
                    return Command::Verify(cmd);
                }
                let ghost m1 = self.messages@;
                let r = self.finish(message, false, events);
                proof {
                    assert(self.messages@ == m1);
                }
                r
            },
            AgentAction::Tool(call) => {
                self.steps = self.steps + 1;
                self.phase = RunPhase::Ready;
                let fp = tool_fingerprint(&call);
                let ghost e0 = events@;
                events.push(AgentEvent::ToolStart { step: self.steps, call: call.duplicate() });
                proof {
                    assert(events@.subrange(0, e0.len() as int) =~= e0);
                }
                let ghost m1 = self.messages@;
                if contains_string(&self.failed_calls, &fp) {
                    let mut denied = owned("Refusing repeated failing call `");
                    push_str(&mut denied, fp.as_str());
                    push_str(
                        &mut denied,
                        "`. Use a path from prior list_dir/find_files results, or emit action=final now.",
                    );
                    let ghost e1 = events@;
                    let r = self.refuse(&call.name, denied, events);
                    proof {
                        assert(self.messages@.drop_last() == m1);
                        assert(self.messages@[m0.len() as int] == m1[m0.len() as int]);
                        assert(events@.subrange(0, e1.len() as int) == e1);
                        assert(events@.subrange(0, old(events)@.len() as int) =~= old(events)@);
                    }
                    return r;
                }
                if !call.allowed_in(self.mode) {
                    let mut denied = owned("Tool `");
                    push_str(&mut denied, call.name.as_str());
                    push_str(&mut denied, "` blocked in ");
                    push_str(&mut denied, self.mode.as_str());
                    push_str(&mut denied, " mode.");
                    let ghost e1 = events@;
                    let r = self.refuse(&call.name, denied, events);
                    proof {
                        assert(self.messages@.drop_last() == m1);
                        assert(self.messages@[m0.len() as int] == m1[m0.len() as int]);
                        assert(events@.subrange(0, e1.len() as int) == e1);
                        assert(events@.subrange(0, old(events)@.len() as int) =~= old(events)@);
                    }
                    return r;
                }
                let shown = call.duplicate();
                self.pending = Some(call);
                self.pending_fp = fp;
                self.approved = false;
                self.phase = RunPhase::AwaitPreview;
                Command::Preview(shown)
            },
        }
    }

    /// The preview of the pending call is known: show it for edits, then ask for approval
    /// where needed, else run the call.
    pub fn on_preview(&mut self, preview: String, events: &mut Vec<AgentEvent>) -> (cmd: Command)
        requires
            old(self).wf(),
            old(self).phase == RunPhase::AwaitPreview,
        ensures
            final(self).wf(),
            final(self).failed_calls == old(self).failed_calls,
            final(self).counters_kept(*old(self)),
            appended(final(events)@, old(events)@),
            final(self).steps == old(self).steps,
            final(self).messages == old(self).messages,
            final(self).pending == old(self).pending,
            cmd matches Command::Execute(c) ==> final(self).phase == RunPhase::AwaitTool
                && c.name@ == old(self).pending->0.name@ && c.args@ == old(self).pending->0.args@
                && !approval_needed(old(self).mode, c.name@, c.args@),
            cmd matches Command::Approve(c, p) ==> final(self).phase == RunPhase::AwaitApproval
                && c.name@ == old(self).pending->0.name@ && c.args@ == old(self).pending->0.args@
                && p@ == preview@ && approval_needed(old(self).mode, c.name@, c.args@),
            cmd is Execute || cmd is Approve,
    {
        let call = match &self.pending {
            Some(c) => c.duplicate(),
            None => {
                return Command::Chat;
            },
        };
        let ghost e0 = events@;
        if !preview.as_str().is_empty() && !call.is_readonly() {
            let path = match call.arg_str("path") {
                Some(p) => p,
                None => String::new(),
            };
            events.push(AgentEvent::DiffPreview { path, diff: preview.clone() });
        }
        let ghost e1 = events@;
        if needs_approval(self.mode, &call) {
            events.push(
                AgentEvent::AwaitingApproval { call: call.duplicate(), preview: preview.clone() },
            );
            proof {
                assert(events@.subrange(0, old(events)@.len() as int) =~= old(events)@);
            }
            self.phase = RunPhase::AwaitApproval;
            return Command::Approve(call, preview);
        }
        proof {
            assert(events@.subrange(0, old(events)@.len() as int) =~= old(events)@);
        }
        self.phase = RunPhase::AwaitTool;
        Command::Execute(call)
    }

    /// The user answered: a denied call is refused; an approved one runs.
    pub fn on_approval(&mut self, allowed: bool, events: &mut Vec<AgentEvent>) -> (cmd: Command)
        requires
            old(self).wf(),
            old(self).phase == RunPhase::AwaitApproval,
        ensures
            final(self).wf(),
            final(self).failed_calls == old(self).failed_calls,
            final(self).counters_kept(*old(self)),
            appended(final(events)@, old(events)@),
            final(self).steps == old(self).steps,
            allowed ==> (cmd matches Command::Execute(c) && final(self).phase == RunPhase::AwaitTool
                && final(self).approved && c.name@ == old(self).pending->0.name@ && c.args@
                == old(self).pending->0.args@),
            !allowed ==> !(cmd is Execute) && final(self).messages@.last().content@ == result_message(
                old(self).pending->0.name@,
                false,
                user_refusal(old(self).pending->0.name@),
            ),
    {
        let call = match &self.pending {
            Some(c) => c.duplicate(),
            None => {
                return Command::Chat;
            },
        };
        if !allowed {
            let mut denied = owned("Tool `");
            push_str(&mut denied, call.name.as_str());
            push_str(&mut denied, "` denied by user/policy.");
            return self.refuse(&call.name, denied, events);
        }
        self.approved = true;
        self.phase = RunPhase::AwaitTool;
        proof {
            assert(events@.subrange(0, old(events)@.len() as int) =~= old(events)@);
        }
        Command::Execute(call)
    }
    /// The pending call ran with outcome `ok` and `output`: remember a failure, count an
    /// informative read and a mutation, report the outcome, tell the model (with a hint to
    /// finish once enough was read), then run the verify command after a successful edit, or
    /// go on.
    pub fn on_tool_result(
        &mut self,
        ok: bool,
        output: String,
        todos: &TodoState,
        events: &mut Vec<AgentEvent>,
    ) -> (cmd: Command)
        requires
            old(self).wf(),
            old(self).phase == RunPhase::AwaitTool,
            event_safe(output@),
            summary_safe(output@),
        ensures
            final(self).wf(),
            appended(final(events)@, old(events)@),
            final(self).steps == old(self).steps,
            !ok ==> views(final(self).failed_calls@) == views(old(self).failed_calls@).push(
                old(self).pending_fp@,
            ),
            ok ==> final(self).failed_calls@ == old(self).failed_calls@,
            final(self).informative_ok == old(self).informative_ok + bump(
                ok && is_informative_name(old(self).pending->0.name@),
            ),
            final(self).mutations == old(self).mutations + bump(
                ok && is_mutating_name(old(self).pending->0.name@),
            ),
            views(final(self).tool_trace@) == views(old(self).tool_trace@).push(
                trace_line(old(self).pending->0.name@, ok, output@),
            ),
            final(self).messages@.len() >= old(self).messages@.len() + 1,
            final(self).messages@.subrange(0, old(self).messages@.len() as int)
                == old(self).messages@,
            final(self).messages@[old(self).messages@.len() as int].role@ == "user"@,
            final(self).messages@[old(self).messages@.len() as int].content@ == tool_message(
                old(self).pending->0.name@,
                ok,
                output@,
                final(self).informative_ok >= 2 && is_readonly_name(old(self).pending->0.name@),
            ),
            old(self).pending->0.name@ == "update_todos"@
                ==> (final(events)@[old(events)@.len() as int] matches AgentEvent::Todos { items }
                && views(items@) == todos@),
            final(events)@.len() > old(events)@.len() + bump(
                old(self).pending->0.name@ == "update_todos"@,
            ),
            final(events)@[old(events)@.len() + bump(old(self).pending->0.name@ == "update_todos"@)]
                matches AgentEvent::ToolEnd { step, ok: o, output: out } && step == old(self).steps
                && o == ok && out@ == event_text(output@),
            auto_verifies(*old(self), ok) ==> (cmd matches Command::Verify(c) && c@
                == old(self).verify_command->0@ && final(self).phase == RunPhase::AwaitAutoVerify
                && final(self).messages@.len() == old(self).messages@.len() + 1),
            !auto_verifies(*old(self), ok) ==> goes_on(*final(self), cmd),
    {
        let call = match &self.pending {
            Some(c) => c.duplicate(),
            None => {
                return Command::Chat;
            },
        };
        let ghost name = call.name@;
        let ghost e0 = events@;
        let ghost m0 = self.messages@;
        if !ok {
            let ghost f0 = self.failed_calls@;
            self.failed_calls.push(self.pending_fp.clone());
            proof {
                assert(views(self.failed_calls@) =~= views(f0).push(self.pending_fp@));
            }
        } else if is_informative(call.name.as_str()) {
            self.informative_ok = self.informative_ok + 1;
        }
        if eq_str(call.name.as_str(), "update_todos") {
            events.push(AgentEvent::Todos { items: todos.snapshot() });
        }
        let ghost e1 = events@;
        events.push(
            AgentEvent::ToolEnd { step: self.steps, ok, output: truncate_for_event(output.as_str()) },
        );
        let ghost t0 = self.tool_trace@;
        self.tool_trace.push(trace_line_text(call.name.as_str(), ok, output.as_str()));
        proof {
            assert(views(self.tool_trace@) =~= views(t0).push(trace_line(name, ok, output@)));
        }
        if ok && is_mutating(call.name.as_str()) {
            self.mutations = self.mutations + 1;
        }
        let mut msg = result_message_text(call.name.as_str(), ok, output.as_str());
        let hint = self.informative_ok >= 2 && call.is_readonly();
        if hint {
            push_str(&mut msg, FINAL_HINT);
        }
        proof {
            if !hint {
                assert(msg@ =~= tool_message(name, ok, output@, hint));
            }
        }
        self.messages.push(ChatMessage::user(msg));
        self.pending = None;
        let ghost e2 = events@;
        let ghost m1 = self.messages@;
        proof {
            assert(e2.subrange(0, e0.len() as int) =~= e0);
            assert(m1.subrange(0, m0.len() as int) =~= m0);
            assert(m1[m0.len() as int] == m1.last());
        }
        if ok && is_edit(call.name.as_str()) {
            if let Some(c) = &self.verify_command {
                self.phase = RunPhase::AwaitAutoVerify;
                return Command::Verify(c.clone());
            }
        }
        self.phase = RunPhase::Ready;
        let cmd = self.begin(events);
        proof {
            assert(events@.subrange(0, e2.len() as int) == e2);
            assert(events@[e1.len() as int] == e2[e1.len() as int]);
            assert(events@[e0.len() as int] == e2[e0.len() as int]);
            assert(events@.subrange(0, e0.len() as int) =~= e0);
        }
        cmd
    }
    /// The verify command ran with outcome `ok` and output `text`. After an edit: tell the
    /// model, forget the verified mutations when it passed, and go on. Before finishing: when
    /// it failed and a step is left, tell the model to fix the failures and go on; else finish
    /// with the model's answer.
    pub fn on_verify(&mut self, ok: bool, text: String, events: &mut Vec<AgentEvent>) -> (cmd: Command)
        requires
            old(self).wf(),
            old(self).phase == RunPhase::AwaitAutoVerify || old(self).phase
                == RunPhase::AwaitFinalVerify,
            event_safe(text@),
        ensures
            final(self).wf(),
            appended(final(events)@, old(events)@),
            final(self).steps == old(self).steps,
            final(self).failed_calls == old(self).failed_calls,
            final(events)@.len() > old(events)@.len(),
            final(events)@[old(events)@.len() as int] matches AgentEvent::Verify {
                command,
                output,
                ok: o,
            } && command@ == old(self).verify_command->0@ && output@ == event_text(text@) && o
                == ok,
            old(self).phase == RunPhase::AwaitAutoVerify ==> {
                &&& final(self).messages@ == old(self).messages@.push(
                    final(self).messages@.last(),
                )
                &&& final(self).messages@.last().role@ == "user"@
                &&& final(self).messages@.last().content@ == auto_verify_message(
                    old(self).verify_command->0@,
                    ok,
                    text@,
                )
                &&& final(self).mutations == if ok {
                    0
                } else {
                    old(self).mutations
                }
                &&& goes_on(*final(self), cmd)
            },
            old(self).phase == RunPhase::AwaitFinalVerify ==> if !ok && old(self).steps + 1
                < old(self).max_steps {
                &&& final(self).messages@ == old(self).messages@.push(
                    final(self).messages@.last(),
                )
                &&& final(self).messages@.last().role@ == "user"@
                &&& final(self).messages@.last().content@ == verify_failed_message(
                    old(self).verify_command->0@,
                    text@,
                )
                &&& final(self).mutations == 0
                &&& cmd is Chat
                &&& final(self).phase == RunPhase::AwaitReply
            } else {
                &&& cmd matches Command::Finish(r) && r.message@ == old(self).final_message@
                    && !r.truncated && r.steps == old(self).steps && r.steps < old(self).max_steps
                &&& final(self).messages == old(self).messages
                &&& final(self).phase == RunPhase::Finished
            },
    {
        let c = match &self.verify_command {
            Some(c) => c.clone(),
            None => {
                return Command::Chat;
            },
        };
        let ghost e0 = events@;
        events.push(
            AgentEvent::Verify { command: c.clone(), output: truncate_for_event(text.as_str()), ok },
        );
        let ghost e1 = events@;
        proof {
            assert(e1.subrange(0, e0.len() as int) =~= e0);
        }
        if self.phase == RunPhase::AwaitAutoVerify {
            let mut m = owned("AUTO_VERIFY command=`");
            push_str(&mut m, c.as_str());
            push_str(&mut m, "` ok=");
            push_str(&mut m, if ok { "true" } else { "false" });
            push_str(&mut m, "\n");
            push_str(&mut m, text.as_str());
            self.messages.push(ChatMessage::user(m));
            if ok {
                self.mutations = 0;
            }
            self.phase = RunPhase::Ready;
            let cmd = self.begin(events);
            proof {
                assert(events@.subrange(0, e1.len() as int) == e1);
                assert(events@[e0.len() as int] == e1[e0.len() as int]);
                assert(events@.subrange(0, e0.len() as int) =~= e0);
            }
            return cmd;
        }
        if !ok && self.max_steps > 0 && self.steps < self.max_steps - 1 {
            self.mutations = 0;
            let mut m = owned("VERIFY_FAILED command=`");
            push_str(&mut m, c.as_str());
            push_str(&mut m, "`\n");
            push_str(&mut m, text.as_str());
            push_str(&mut m, "\nFix the failures, then finish.");
            self.messages.push(ChatMessage::user(m));
            self.phase = RunPhase::Ready;
            let cmd = self.begin(events);
            proof {
                assert(events@.subrange(0, e1.len() as int) == e1);
                assert(events@[e0.len() as int] == e1[e0.len() as int]);
                assert(events@.subrange(0, e0.len() as int) =~= e0);
            }
            return cmd;
        }
        let message = self.final_message.clone();
        let cmd = self.finish(message, false, events);
        proof {
            assert(events@.subrange(0, e1.len() as int) == e1);
            assert(events@[e0.len() as int] == e1[e0.len() as int]);
            assert(events@.subrange(0, e0.len() as int) =~= e0);
        }
        cmd
    }
}

/// A call the run hands out to be executed is one the session mode allows (in plan mode, a
/// read-only tool), that has not failed before in this run, and that the user approved where
/// approval is needed; and the run stays within its step budget.
pub proof fn law_run_executes_only_permitted_calls(run: AgentRun)
    requires
        run.wf(),
        run.phase == RunPhase::AwaitTool,
    ensures
        allowed_in_mode(run.pending->0.name@, run.mode),
        run.mode == SessionMode::Plan ==> is_readonly_name(run.pending->0.name@),
        !views(run.failed_calls@).contains(fingerprint_of(run.pending->0)),
        approval_needed(run.mode, run.pending->0.name@, run.pending->0.args@) ==> run.approved,
        run.steps <= run.max_steps,
{
}

} // verus!
