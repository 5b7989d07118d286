//! The command line and the interactive shell: reading slash commands, deciding modes and
//! approvals, the watch loop's decisions, and the text shown for events and listings.
use vstd::prelude::*;

use crate::config::{mode_name, mode_named, parse_unsigned, parse_usize, SessionMode};
use crate::paths::{join_path, join_path_seq};
use crate::protocol::{arg_str_of, is_destructive_call, is_readonly_name, ToolCall};
use crate::runtime::{arg2, or_empty, take_chars, AgentEvent, ApprovalPolicy};
use crate::sandbox::components;
use crate::text::{
    chars_of, dec, eq_str, is_whitespace, is_ws, join, join_seq, lemma_lines_of_join,
    lemma_lines_plain, lines, lines_seq, owned,
    push_str, spec_to_lowercase, starts_with, starts_with_seq, string_of_range, to_lowercase, trim,
    trim_seq, usize_to_string, views,
};

verus! {

// ---------------------------------------------------------------------------
// Lines typed into the shell
// ---------------------------------------------------------------------------

/// A line that looks like a shell command rather than a request.
pub open spec fn shell_like(line: Seq<char>) -> bool {
    let t = trim_seq(line);
    ||| starts_with_seq(t, "vesper "@)
    ||| starts_with_seq(t, "vesper\t"@)
    ||| starts_with_seq(t, "cargo "@)
    ||| starts_with_seq(t, "cd "@)
    ||| starts_with_seq(t, "ollama "@)
}

/// Whether a line typed into the shell looks like a shell command.
pub fn looks_like_shell_command(line: &str) -> (r: bool)
    ensures
        r == shell_like(line@),
{
    let t = trim(line);
    let t = t.as_str();
    starts_with(t, "vesper ") || starts_with(t, "vesper\t") || starts_with(t, "cargo ")
        || starts_with(t, "cd ") || starts_with(t, "ollama ")
}

/// The note shown for a line that looks like a shell command.
pub fn shell_command_note(line: &str) -> (r: String)
    ensures
        r@ == "[vesper] that looks like a shell command.\nInside this chat, use:\n/workspace /path/to/repo\n/summarize\nOr exit (/exit) and run in your terminal:\n"@
            + line@,
{
    crate::text::concat2(
        "[vesper] that looks like a shell command.\nInside this chat, use:\n/workspace /path/to/repo\n/summarize\nOr exit (/exit) and run in your terminal:\n",
        line,
    )
}

/// The position of the first whitespace character of `s`, or its length.
pub open spec fn first_ws(s: Seq<char>) -> int
    decreases s.len(),
{
    if s.len() == 0 {
        0
    } else if is_ws(s[0]) {
        0
    } else {
        1 + first_ws(s.drop_first())
    }
}

proof fn lemma_first_ws(s: Seq<char>)
    ensures
        0 <= first_ws(s) <= s.len(),
        first_ws(s) < s.len() ==> is_ws(s[first_ws(s)]),
        forall|k: int| 0 <= k < first_ws(s) ==> !is_ws(s[k]),
    decreases s.len(),
{
    if s.len() > 0 && !is_ws(s[0]) {
        lemma_first_ws(s.drop_first());
        assert forall|k: int| 0 <= k < first_ws(s) implies !is_ws(s[k]) by {
            if k > 0 {
                assert(s[k] == s.drop_first()[k - 1]);
            }
        }
    }
}

/// A slash command split at its first whitespace: the command, and the rest trimmed.
pub open spec fn slash_parts(line: Seq<char>) -> (Seq<char>, Seq<char>) {
    let k = first_ws(line);
    if k < line.len() {
        (line.take(k), trim_seq(line.skip(k + 1)))
    } else {
        (line, seq![])
    }
}

/// A command typed into the shell after `/`.
#[derive(Debug)]
pub enum SlashCommand {
    Help,
    Undo,
    Checkpoints,
    /// Show the workspace, or switch to the given path.
    Workspace(Option<String>),
    /// Summarize the codebase, with a focus where given.
    Summarize(Option<String>),
    ShowMode,
    SetMode(SessionMode),
    UnknownMode(String),
    New,
    /// Remember a fact; `None` when none was given.
    Remember(Option<String>),
    Memory,
    /// Forget the fact at this index (`usize::MAX` when not a number).
    Forget(usize),
    Context,
    Model,
    Exit,
    Unknown(String),
}

/// What a slash command asks for, as values.
pub enum SlashView {
    Help,
    Undo,
    Checkpoints,
    Workspace(Option<Seq<char>>),
    Summarize(Option<Seq<char>>),
    ShowMode,
    SetMode(SessionMode),
    UnknownMode(Seq<char>),
    New,
    Remember(Option<Seq<char>>),
    Memory,
    Forget(usize),
    Context,
    Model,
    Exit,
    Unknown(Seq<char>),
}

/// The command as values.
pub open spec fn slash_view(c: SlashCommand) -> SlashView {
    match c {
        SlashCommand::Help => SlashView::Help,
        SlashCommand::Undo => SlashView::Undo,
        SlashCommand::Checkpoints => SlashView::Checkpoints,
        SlashCommand::Workspace(p) => SlashView::Workspace(crate::text::opt_view(p)),
        SlashCommand::Summarize(p) => SlashView::Summarize(crate::text::opt_view(p)),
        SlashCommand::ShowMode => SlashView::ShowMode,
        SlashCommand::SetMode(m) => SlashView::SetMode(m),
        SlashCommand::UnknownMode(s) => SlashView::UnknownMode(s@),
        SlashCommand::New => SlashView::New,
        SlashCommand::Remember(f) => SlashView::Remember(crate::text::opt_view(f)),
        SlashCommand::Memory => SlashView::Memory,
        SlashCommand::Forget(i) => SlashView::Forget(i),
        SlashCommand::Context => SlashView::Context,
        SlashCommand::Model => SlashView::Model,
        SlashCommand::Exit => SlashView::Exit,
        SlashCommand::Unknown(s) => SlashView::Unknown(s@),
    }
}

/// `rest` where it is not empty.
pub open spec fn given(rest: Seq<char>) -> Option<Seq<char>> {
    if rest.len() == 0 {
        None
    } else {
        Some(rest)
    }
}

/// What a slash command line asks for.
pub open spec fn slash_of(line: Seq<char>) -> SlashView {
    let (cmd, rest) = slash_parts(line);
    if cmd == "/help"@ || cmd == "/h"@ {
        SlashView::Help
    } else if cmd == "/undo"@ {
        SlashView::Undo
    } else if cmd == "/checkpoints"@ {
        SlashView::Checkpoints
    } else if cmd == "/workspace"@ || cmd == "/ws"@ {
        SlashView::Workspace(given(rest))
    } else if cmd == "/summarize"@ {
        SlashView::Summarize(given(rest))
    } else if cmd == "/mode"@ {
        if rest.len() == 0 {
            SlashView::ShowMode
        } else {
            match mode_named(spec_to_lowercase(trim_seq(rest))) {
                Some(m) => SlashView::SetMode(m),
                None => SlashView::UnknownMode(rest),
            }
        }
    } else if cmd == "/new"@ {
        SlashView::New
    } else if cmd == "/remember"@ {
        SlashView::Remember(given(rest))
    } else if cmd == "/memory"@ {
        SlashView::Memory
    } else if cmd == "/forget"@ {
        SlashView::Forget(
            match parse_unsigned(rest, usize::MAX as nat) {
                Some(n) => n as usize,
                None => usize::MAX,
            },
        )
    } else if cmd == "/context"@ {
        SlashView::Context
    } else if cmd == "/model"@ {
        SlashView::Model
    } else if cmd == "/exit"@ || cmd == "/quit"@ || cmd == "/q"@ {
        SlashView::Exit
    } else {
        SlashView::Unknown(cmd)
    }
}

/// `Some(rest)` where it is not empty.
fn given_exec(rest: &String) -> (r: Option<String>)
    ensures
        crate::text::opt_view(r) == given(rest@),
{
    if rest.as_str().is_empty() {
        None
    } else {
        Some(rest.clone())
    }
}

/// Reads a slash command line (`handle_slash`'s dispatch).
pub fn parse_slash(line: &str) -> (r: SlashCommand)
    ensures
        slash_view(r) == slash_of(line@),
{
    let v = chars_of(line);
    let mut k: usize = 0;
    while k < v.len() && !is_whitespace(v[k])
        invariant
            k <= v@.len(),
            v@ == line@,
            forall|q: int| 0 <= q < k ==> !is_ws(v@[q]),
        decreases v@.len() - k,
    {
        k += 1;
    }
    proof {
        lemma_first_ws(line@);
        let f = first_ws(line@);
        if f < k {
            assert(!is_ws(v@[f]));
        }
        if k < f {
            assert(is_ws(v@[k as int]));
        }
        assert(f == k);
    }
    let cmd = string_of_range(&v, 0, k);
    let rest = if k < v.len() {
        let r = string_of_range(&v, k + 1, v.len());
        trim(r.as_str())
    } else {
        String::new()
    };
    proof {
        if k < v@.len() {
            assert(v@.subrange(0, k as int) =~= line@.take(k as int));
            assert(v@.subrange(k + 1, v@.len() as int) =~= line@.skip(k + 1));
        } else {
            assert(v@.subrange(0, k as int) =~= line@);
        }
    }
    let c = cmd.as_str();
    if eq_str(c, "/help") || eq_str(c, "/h") {
        SlashCommand::Help
    } else if eq_str(c, "/undo") {
        SlashCommand::Undo
    } else if eq_str(c, "/checkpoints") {
        SlashCommand::Checkpoints
    } else if eq_str(c, "/workspace") || eq_str(c, "/ws") {
        SlashCommand::Workspace(given_exec(&rest))
    } else if eq_str(c, "/summarize") {
        SlashCommand::Summarize(given_exec(&rest))
    } else if eq_str(c, "/mode") {
        if rest.as_str().is_empty() {
            SlashCommand::ShowMode
        } else {
            match SessionMode::parse(rest.as_str()) {
                Some(m) => SlashCommand::SetMode(m),
                None => SlashCommand::UnknownMode(rest),
            }
        }
    } else if eq_str(c, "/new") {
        SlashCommand::New
    } else if eq_str(c, "/remember") {
        SlashCommand::Remember(given_exec(&rest))
    } else if eq_str(c, "/memory") {
        SlashCommand::Memory
    } else if eq_str(c, "/forget") {
        SlashCommand::Forget(
            match parse_usize(rest.as_str()) {
                Some(n) => n,
                None => usize::MAX,
            },
        )
    } else if eq_str(c, "/context") {
        SlashCommand::Context
    } else if eq_str(c, "/model") {
        SlashCommand::Model
    } else if eq_str(c, "/exit") || eq_str(c, "/quit") || eq_str(c, "/q") {
        SlashCommand::Exit
    } else {
        SlashCommand::Unknown(cmd)
    }
}

/// The help of the shell's slash commands.
pub const HELP_TEXT: &'static str = "Commands:\n  /help                 this help\n  /workspace [path]     show or switch project root\n  /summarize [focus]    walk key files and summarize codebase\n  /undo                 restore last edit checkpoint\n  /checkpoints          list edit checkpoints\n  /mode [plan|ask|auto] show or set session mode\n  /new                  clear conversation\n  /remember <fact>      persist project fact\n  /memory               list facts\n  /forget <n>           drop fact\n  /context              workspace snapshot\n  /exit                 quit\n";

/// The last name of a path, as `Path::file_name` gives it.
pub open spec fn file_name_of(path: Seq<char>) -> Option<Seq<char>> {
    let c = components(path);
    if c.len() > 0 && c.last() != "/"@ && c.last() != "."@ && c.last() != ".."@ {
        Some(c.last())
    } else {
        None
    }
}

/// The workspace as shown in the prompt: its last name, or `.`.
pub fn short_workspace(path: &str) -> (r: String)
    ensures
        r@ == match file_name_of(path@) {
            Some(n) => n,
            None => "."@,
        },
{
    let c = crate::sandbox::path_components(path);
    proof {
        reveal_strlit("/");
        reveal_strlit(".");
        reveal_strlit("..");
    }
    if c.len() > 0 {
        let last = c[c.len() - 1].as_str();
        proof {
            assert(views(c@).last() == last@);
        }
        if !eq_str(last, "/") && !eq_str(last, ".") && !eq_str(last, "..") {
            return owned(last);
        }
    }
    owned(".")
}

/// The shell's prompt: `vesper (mode/workspace) › `.
pub fn shell_prompt(mode: SessionMode, short_ws: &str) -> (r: String)
    ensures
        r@ == "vesper ("@ + mode_name(mode) + "/"@ + short_ws@ + ") › "@,
{
    let mut s = owned("vesper (");
    push_str(&mut s, mode.as_str());
    push_str(&mut s, "/");
    push_str(&mut s, short_ws);
    push_str(&mut s, ") › ");
    s
}

/// Whether the shell asks the user before a call: never for a read-only tool; in plan and
/// ask mode for every other; in auto mode for destructive calls.
pub open spec fn prompts_for(mode: SessionMode, name: Seq<char>, args: crate::json::Json) -> bool {
    if is_readonly_name(name) {
        false
    } else {
        match mode {
            SessionMode::Plan | SessionMode::Ask => true,
            SessionMode::Auto => is_destructive_call(name, args),
        }
    }
}

/// Whether the shell asks the user before running `call`.
pub fn needs_prompt(mode: SessionMode, call: &ToolCall) -> (r: bool)
    ensures
        r == prompts_for(mode, call.name@, call.args@),
{
    if call.is_readonly() {
        return false;
    }
    match mode {
        SessionMode::Plan | SessionMode::Ask => true,
        SessionMode::Auto => call.is_destructive(),
    }
}

/// An answer that approves: `y` or `yes`, trimmed, in any case.
pub open spec fn approving(answer: Seq<char>) -> bool {
    let a = spec_to_lowercase(trim_seq(answer));
    a == "y"@ || a == "yes"@
}

/// Whether the user's answer approves the call.
pub fn approves(answer: &str) -> (r: bool)
    ensures
        r == approving(answer@),
{
    let t = trim(answer);
    let l = to_lowercase(t.as_str());
    eq_str(l.as_str(), "y") || eq_str(l.as_str(), "yes")
}

/// The question asked before a call.
pub fn approval_question(name: &str) -> (r: String)
    ensures
        r@ == "[vesper] approve `"@ + name@ + "`? [y/N] "@,
{
    let mut s = owned("[vesper] approve `");
    push_str(&mut s, name);
    push_str(&mut s, "`? [y/N] ");
    s
}

/// `raw` trimmed, then without the double and then the single quotes around it.
pub open spec fn unquoted(raw: Seq<char>) -> Seq<char> {
    trim_char(trim_char(trim_seq(raw), '"'), '\'')
}

/// `s` without leading and trailing `c` (`trim_matches(c)`).
pub open spec fn trim_char(s: Seq<char>, c: char) -> Seq<char> {
    strip_end_char(strip_start_char(s, c), c)
}

/// `s` without leading `c`.
pub open spec fn strip_start_char(s: Seq<char>, c: char) -> Seq<char>
    decreases s.len(),
{
    if s.len() > 0 && s[0] == c {
        strip_start_char(s.drop_first(), c)
    } else {
        s
    }
}

/// `s` without trailing `c`.
pub open spec fn strip_end_char(s: Seq<char>, c: char) -> Seq<char>
    decreases s.len(),
{
    if s.len() > 0 && s.last() == c {
        strip_end_char(s.drop_last(), c)
    } else {
        s
    }
}

/// `s` without leading and trailing `c`.
fn trim_matches(s: &str, c: char) -> (r: String)
    ensures
        r@ == trim_char(s@, c),
{
    let v = chars_of(s);
    let mut lo: usize = 0;
    proof {
        assert(v@.skip(0) =~= v@);
    }
    while lo < v.len() && v[lo] == c
        invariant
            lo <= v@.len(),
            v@ == s@,
            strip_start_char(s@, c) == strip_start_char(v@.skip(lo as int), c),
        decreases v@.len() - lo,
    {
        proof {
            assert(v@.skip(lo as int).drop_first() =~= v@.skip(lo + 1));
        }
        lo += 1;
    }
    let mut hi = v.len();
    proof {
        assert(v@.skip(0) =~= v@);
        assert(v@.skip(lo as int).subrange(0, (hi - lo) as int) =~= v@.skip(lo as int));
    }
    while hi > lo && v[hi - 1] == c
        invariant
            lo <= hi <= v@.len(),
            v@ == s@,
            strip_start_char(s@, c) == v@.skip(lo as int),
            trim_char(s@, c) == strip_end_char(v@.subrange(lo as int, hi as int), c),
        decreases hi,
    {
        proof {
            assert(v@.subrange(lo as int, hi as int).drop_last() =~= v@.subrange(lo as int, hi - 1));
        }
        hi -= 1;
    }
    proof {
        if lo == v@.len() {
            assert(v@.skip(lo as int).len() == 0);
        }
    }
    string_of_range(&v, lo, hi)
}

/// Where `/workspace <path>` points: the path unquoted, with `~` and `~/` read as the home
/// directory where it is known.
pub open spec fn expanded(raw: Seq<char>, home: Option<Seq<char>>) -> Seq<char> {
    let r = unquoted(raw);
    match home {
        Some(h) => if starts_with_seq(r, "~/"@) {
            join_path_seq(h, r.skip(2))
        } else if r == "~"@ {
            h
        } else {
            r
        },
        None => r,
    }
}

/// The path `/workspace <path>` points to.
pub fn expand_path(raw: &str, home: Option<&str>) -> (r: String)
    ensures
        r@ == expanded(
            raw@,
            match home {
                Some(h) => Some(h@),
                None => None,
            },
        ),
{
    let t = trim(raw);
    let a = trim_matches(t.as_str(), '"');
    let b = trim_matches(a.as_str(), '\'');
    proof {
        reveal_strlit("~/");
        reveal_strlit("~");
    }
    match home {
        Some(h) => {
            if starts_with(b.as_str(), "~/") {
                let v = chars_of(b.as_str());
                let rest = string_of_range(&v, 2, v.len());
                proof {
                    assert(v@.subrange(2, v@.len() as int) =~= b@.skip(2));
                }
                join_path(h, rest.as_str())
            } else if eq_str(b.as_str(), "~") {
                owned(h)
            } else {
                b
            }
        },
        None => b,
    }
}

/// The file of the shell's history: `.vesper/history` in the home directory (or in `.`).
pub fn history_path(home: Option<&str>) -> (r: String)
    ensures
        r@ == join_path_seq(
            join_path_seq(
                match home {
                    Some(h) => h@,
                    None => "."@,
                },
                ".vesper"@,
            ),
            "history"@,
        ),
{
    let base = match home {
        Some(h) => owned(h),
        None => owned("."),
    };
    let d = join_path(base.as_str(), ".vesper");
    join_path(d.as_str(), "history")
}

// ---------------------------------------------------------------------------
// Modes and approvals of the commands
// ---------------------------------------------------------------------------

/// The mode of `run`: plan when read-only, auto with `--yes`, else the configured one.
pub fn run_mode(read_only: bool, yes: bool, configured: SessionMode) -> (r: SessionMode)
    ensures
        r == if read_only {
            SessionMode::Plan
        } else if yes {
            SessionMode::Auto
        } else {
            configured
        },
{
    if read_only {
        SessionMode::Plan
    } else if yes {
        SessionMode::Auto
    } else {
        configured
    }
}

/// The mode and approval of a command's run (`build_options`): with `--yes` or in auto mode,
/// everything is approved (plan stays plan, anything else becomes auto); in plan mode,
/// everything is refused; otherwise, in ask mode, the user is asked.
pub open spec fn options_for(mode: SessionMode, yes: bool) -> (SessionMode, ApprovalPolicy) {
    if yes || mode == SessionMode::Auto {
        (
            if mode == SessionMode::Plan {
                SessionMode::Plan
            } else {
                SessionMode::Auto
            },
            ApprovalPolicy::ApproveAll,
        )
    } else if mode == SessionMode::Plan {
        (SessionMode::Plan, ApprovalPolicy::DenyAll)
    } else {
        (SessionMode::Ask, ApprovalPolicy::AskUser)
    }
}

/// The mode and approval policy of a command's run.
pub fn build_options(mode: SessionMode, yes: bool) -> (r: (SessionMode, ApprovalPolicy))
    ensures
        r == options_for(mode, yes),
{
    if yes || mode == SessionMode::Auto {
        return (
            if mode == SessionMode::Plan {
                SessionMode::Plan
            } else {
                SessionMode::Auto
            },
            ApprovalPolicy::ApproveAll,
        );
    }
    if mode == SessionMode::Plan {
        return (SessionMode::Plan, ApprovalPolicy::DenyAll);
    }
    (SessionMode::Ask, ApprovalPolicy::AskUser)
}

/// The task of `fix`: a general one without a hint, else the hint.
pub open spec fn fix_task(hint: Seq<char>) -> Seq<char> {
    if trim_seq(hint).len() == 0 {
        "Investigate this workspace. Run the best build/test command, diagnose failures, fix with minimal diffs, re-verify until green or explain blockers."@
    } else {
        "Fix this problem using tools and verify:\n\n"@ + hint
    }
}

/// The task given to the agent by `fix`.
pub fn fix_prompt(hint: &str) -> (r: String)
    ensures
        r@ == fix_task(hint@),
{
    let t = trim(hint);
    if t.as_str().is_empty() {
        owned(
            "Investigate this workspace. Run the best build/test command, diagnose failures, fix with minimal diffs, re-verify until green or explain blockers.",
        )
    } else {
        crate::text::concat2("Fix this problem using tools and verify:\n\n", hint)
    }
}

// ---------------------------------------------------------------------------
// The watch loop
// ---------------------------------------------------------------------------

/// A line that identifies a failure: not blank, and not a warning.
pub open spec fn identifying(line: Seq<char>) -> bool {
    trim_seq(line).len() > 0 && !starts_with_seq(trim_seq(line), "warning:"@)
}

/// The lines of a failure that identify it: not blank and not warnings.
pub open spec fn failure_lines(ls: Seq<Seq<char>>) -> Seq<Seq<char>>
    decreases ls.len(),
{
    if ls.len() == 0 {
        seq![]
    } else {
        let r = failure_lines(ls.drop_last());
        if identifying(ls.last()) {
            r.push(ls.last())
        } else {
            r
        }
    }
}

/// The lines of the fingerprint of a failing verification: its first 20 identifying lines.
pub open spec fn fingerprint_lines(s: Seq<char>) -> Seq<Seq<char>> {
    let f = failure_lines(lines_seq(s));
    if f.len() > 20 {
        f.take(20)
    } else {
        f
    }
}

/// The fingerprint of a failing verification: its first 20 identifying lines.
pub open spec fn failure_fingerprint(s: Seq<char>) -> Seq<char> {
    join_seq(fingerprint_lines(s), "\n"@)
}

/// Each identifying line is a line it was taken from, and identifies.
proof fn lemma_failure_lines_from(ls: Seq<Seq<char>>)
    ensures
        forall|k: int|
            0 <= k < failure_lines(ls).len() ==> identifying(#[trigger] failure_lines(ls)[k])
                && exists|j: int| 0 <= j < ls.len() && ls[j] == failure_lines(ls)[k],
    decreases ls.len(),
{
    if ls.len() > 0 {
        let p = ls.drop_last();
        lemma_failure_lines_from(p);
        let r = failure_lines(ls);
        let q = failure_lines(p);
        assert forall|k: int| 0 <= k < r.len() implies identifying(#[trigger] r[k]) && exists|j: int|
            0 <= j < ls.len() && ls[j] == r[k] by {
            if k < q.len() {
                assert(r[k] == q[k]);
                let j = choose|j: int| 0 <= j < p.len() && p[j] == q[k];
                assert(ls[j] == p[j]);
            } else {
                assert(r[k] == ls[ls.len() - 1]);
            }
        }
    }
}

/// Lines that all identify a failure are all kept.
proof fn lemma_failure_lines_all(ls: Seq<Seq<char>>)
    requires
        forall|k: int| 0 <= k < ls.len() ==> identifying(#[trigger] ls[k]),
    ensures
        failure_lines(ls) == ls,
    decreases ls.len(),
{
    if ls.len() > 0 {
        let p = ls.drop_last();
        assert forall|k: int| 0 <= k < p.len() implies identifying(#[trigger] p[k]) by {
            assert(p[k] == ls[k]);
        }
        lemma_failure_lines_all(p);
        assert(identifying(ls[ls.len() - 1]));
        assert(p.push(ls.last()) =~= ls);
    }
}

/// A fingerprint is its own fingerprint, unless one of its lines but the last ends in a
/// carriage return (which splitting the fingerprint into lines again would drop).
pub proof fn law_fingerprint_idempotent(s: Seq<char>)
    requires
        forall|k: int|
            0 <= k < fingerprint_lines(s).len() - 1 ==> !((#[trigger] fingerprint_lines(s)[k]).len()
                > 0 && fingerprint_lines(s)[k].last() == '\r'),
    ensures
        failure_fingerprint(failure_fingerprint(s)) == failure_fingerprint(s),
{
    let ls = lines_seq(s);
    let f = failure_lines(ls);
    let g = fingerprint_lines(s);
    lemma_lines_plain(s);
    lemma_failure_lines_from(ls);
    assert forall|k: int| 0 <= k < g.len() implies identifying(#[trigger] g[k]) && !g[k].contains('\n')
        && g[k].len() > 0 by {
        assert(g[k] == f[k]);
        let j = choose|j: int| 0 <= j < ls.len() && ls[j] == f[k];
        assert(!ls[j].contains('\n'));
        if g[k].len() == 0 {
            assert(trim_seq(g[k]).len() == 0);
        }
    }
    if g.len() > 0 {
        assert(g.last() == g[g.len() - 1]);
    }
    lemma_lines_of_join(g);
    lemma_failure_lines_all(g);
}

/// The fingerprint of a failing verification.
pub fn fingerprint(s: &str) -> (r: String)
    ensures
        r@ == failure_fingerprint(s@),
{
    let ls = lines(s);
    let ghost lv = views(ls@);
    let mut kept: Vec<String> = Vec::new();
    let mut i: usize = 0;
    while i < ls.len()
        invariant
            i <= ls@.len(),
            lv == views(ls@),
            views(kept@) == failure_lines(lv.take(i as int)),
        decreases ls@.len() - i,
    {
        proof {
            assert(lv.take(i + 1).drop_last() =~= lv.take(i as int));
            assert(lv.take(i + 1).last() == ls@[i as int]@);
            reveal_strlit("warning:");
        }
        let t = trim(ls[i].as_str());
        if !t.as_str().is_empty() && !starts_with(t.as_str(), "warning:") {
            let ghost before = kept@;
            kept.push(ls[i].clone());
            proof {
                assert(views(kept@) =~= views(before).push(ls@[i as int]@));
            }
        }
        i += 1;
    }
    proof {
        assert(lv.take(lv.len() as int) =~= lv);
    }
    if kept.len() > 20 {
        let mut first: Vec<String> = Vec::new();
        let mut k: usize = 0;
        while k < 20
            invariant
                k <= 20 <= kept@.len(),
                views(first@) == views(kept@).take(k as int),
            decreases 20 - k,
        {
            let ghost before = first@;
            first.push(kept[k].clone());
            proof {
                assert(views(first@) =~= views(before).push(kept@[k as int]@));
                assert(views(kept@).take(k + 1) =~= views(kept@).take(k as int).push(kept@[k as int]@));
            }
            k += 1;
        }
        join(&first, "\n")
    } else {
        join(&kept, "\n")
    }
}

/// What the watch loop does after a verification.
#[derive(Debug)]
pub enum WatchAction {
    /// It passed: report it and wait.
    Pass,
    /// It failed as before: wait.
    SameFailure,
    /// It failed anew: this request goes to the fix loop.
    Fix(String),
}

/// The task given to the agent for a failed verification.
pub open spec fn watch_task(verify: Seq<char>, output: Seq<char>) -> Seq<char> {
    "Verify command `"@ + verify + "` failed. Diagnose and fix with minimal diffs, then re-verify.\n\n"@
        + take_chars(output, 4000)
}

/// The watch loop's decision after running `verify` with exit `status` and output `output`,
/// given the fingerprint of the last failure (which it updates: cleared on success, set on a
/// new failure).
pub fn watch_step(last: &mut String, status: i32, output: &str, verify: &str) -> (r: WatchAction)
    ensures
        status == 0 ==> (r is Pass && final(last)@.len() == 0),
        status != 0 && failure_fingerprint(output@) == old(last)@ ==> (r is SameFailure
            && final(last)@ == old(last)@),
        status != 0 && failure_fingerprint(output@) != old(last)@ ==> (r matches WatchAction::Fix(
            p,
        ) && p@ == watch_task(verify@, output@) && final(last)@ == failure_fingerprint(output@)),
{
    if status == 0 {
        *last = String::new();
        return WatchAction::Pass;
    }
    let fp = fingerprint(output);
    if eq_str(fp.as_str(), last.as_str()) {
        return WatchAction::SameFailure;
    }
    *last = fp;
    let mut p = owned("Verify command `");
    push_str(&mut p, verify);
    push_str(&mut p, "` failed. Diagnose and fix with minimal diffs, then re-verify.\n\n");
    let head = crate::runtime::first_chars(output, 4000);
    push_str(&mut p, head.as_str());
    WatchAction::Fix(p)
}

/// The verify command the watch loop runs: the configured one, else the one the project
/// scan suggests; without either it cannot start.
pub fn watch_command(configured: Option<String>, suggested: Option<String>) -> (r: Result<String, crate::runtime::ToolError>)
    ensures
        match configured {
            Some(c) => r matches Ok(x) && x@ == c@,
            None => match suggested {
                Some(s) => r matches Ok(x) && x@ == s@,
                None => r matches Err(e) && e.message@ == "no verify_command — set with: vesper config set verify_command \"…\" --project"@,
            },
        },
{
    match configured {
        Some(c) => Ok(c),
        None => match suggested {
            Some(s) => Ok(s),
            None => Err(
                crate::runtime::ToolError {
                    message: owned(
                        "no verify_command — set with: vesper config set verify_command \"…\" --project",
                    ),
                },
            ),
        },
    }
}

// ---------------------------------------------------------------------------
// Events as shown
// ---------------------------------------------------------------------------

/// The argument shown beside a tool call.
pub open spec fn short_arg_of(name: Seq<char>, args: crate::json::Json) -> Seq<char> {
    if name == "read_file"@ || name == "write_file"@ || name == "str_replace"@ || name
        == "multi_str_replace"@ || name == "delete_file"@ || name == "list_dir"@ {
        or_empty(arg_str_of(args, "path"@))
    } else if name == "grep"@ || name == "find_files"@ {
        or_empty(arg2(args, "pattern"@, "query"@))
    } else if name == "run_shell"@ {
        or_empty(arg2(args, "command"@, "cmd"@))
    } else if name == "git_commit"@ {
        or_empty(arg_str_of(args, "message"@))
    } else if name == "remember"@ {
        or_empty(arg_str_of(args, "fact"@))
    } else {
        seq![]
    }
}

/// The string or nothing.
fn text_or_empty(o: Option<String>) -> (r: String)
    ensures
        r@ == or_empty(crate::protocol::opt_str_view(o)),
{
    match o {
        Some(s) => s,
        None => String::new(),
    }
}

/// The argument shown beside a tool call.
pub fn short_args(call: &ToolCall) -> (r: String)
    ensures
        r@ == short_arg_of(call.name@, call.args@),
{
    let n = call.name.as_str();
    if eq_str(n, "read_file") || eq_str(n, "write_file") || eq_str(n, "str_replace") || eq_str(
        n,
        "multi_str_replace",
    ) || eq_str(n, "delete_file") || eq_str(n, "list_dir") {
        text_or_empty(call.arg_str("path"))
    } else if eq_str(n, "grep") || eq_str(n, "find_files") {
        let a = match call.arg_str("pattern") {
            Some(p) => Some(p),
            None => call.arg_str("query"),
        };
        text_or_empty(a)
    } else if eq_str(n, "run_shell") {
        let a = match call.arg_str("command") {
            Some(p) => Some(p),
            None => call.arg_str("cmd"),
        };
        text_or_empty(a)
    } else if eq_str(n, "git_commit") {
        text_or_empty(call.arg_str("message"))
    } else if eq_str(n, "remember") {
        text_or_empty(call.arg_str("fact"))
    } else {
        String::new()
    }
}

/// The first `n` lines of `s`, one per line.
pub open spec fn first_lines(s: Seq<char>, n: nat) -> Seq<char> {
    let ls = lines_seq(s);
    join_seq(
        if ls.len() > n {
            ls.take(n as int)
        } else {
            ls
        },
        "\n"@,
    )
}

/// The first `n` lines of `s`.
pub fn head_lines(s: &str, n: usize) -> (r: String)
    ensures
        r@ == first_lines(s@, n as nat),
{
    let ls = lines(s);
    if ls.len() <= n {
        return join(&ls, "\n");
    }
    let mut first: Vec<String> = Vec::new();
    let mut k: usize = 0;
    while k < n
        invariant
            k <= n < ls@.len(),
            views(first@) == views(ls@).take(k as int),
        decreases n - k,
    {
        let ghost before = first@;
        first.push(ls[k].clone());
        proof {
            assert(views(first@) =~= views(before).push(ls@[k as int]@));
            assert(views(ls@).take(k + 1) =~= views(ls@).take(k as int).push(ls@[k as int]@));
        }
        k += 1;
    }
    join(&first, "\n")
}

/// Where an event's text goes.
#[derive(Debug, Clone, Copy, PartialEq, Eq, Structural)]
pub enum Stream {
    /// Standard output.
    Stdout,
    /// Standard error.
    Stderr,
}

/// A piece of text to print for an event.
#[derive(Debug)]
pub struct Printed {
    pub stream: Stream,
    pub text: String,
    /// Whether a newline follows it.
    pub newline: bool,
}

/// A printed line.
fn line_to(stream: Stream, text: String) -> (r: Printed)
    ensures
        r.stream == stream,
        r.text@ == text@,
        r.newline,
{
    Printed { stream, text, newline: true }
}

/// A printed piece as values: where it goes, its text, and whether a newline follows.
pub open spec fn printed_of(p: Printed) -> (Stream, Seq<char>, bool) {
    (p.stream, p.text@, p.newline)
}

/// The printed pieces as values.
pub open spec fn printed_view(v: Seq<Printed>) -> Seq<(Stream, Seq<char>, bool)> {
    v.map_values(|p: Printed| printed_of(p))
}

/// The checklist's lines: `  N. item`, counting from 1.
pub open spec fn todo_lines(items: Seq<Seq<char>>) -> Seq<(Stream, Seq<char>, bool)> {
    Seq::new(
        items.len(),
        |i: int| (Stream::Stderr, "  "@ + dec((i + 1) as nat) + ". "@ + items[i], true),
    )
}

/// What is printed for an event: progress on standard error, the answer on standard output.
/// The final answer is not printed again where its tokens were streamed (only the newline).
pub open spec fn event_lines(ev: AgentEvent, streamed: bool) -> Seq<(Stream, Seq<char>, bool)> {
    match ev {
        AgentEvent::Thinking { step } => seq![
            (Stream::Stderr, "[vesper] thinking (step "@ + dec(step as nat) + ")…"@, true),
        ],
        AgentEvent::ToolStart { step, call } => seq![
            (
                Stream::Stderr,
                "[vesper] ▶ #"@ + dec(step as nat) + " "@ + call.name@ + " "@ + short_arg_of(
                    call.name@,
                    call.args@,
                ),
                true,
            ),
        ],
        AgentEvent::DiffPreview { diff, .. } => if diff@.len() == 0 {
            seq![]
        } else {
            seq![(Stream::Stderr, diff@, true)]
        },
        AgentEvent::AwaitingApproval { .. } => seq![],
        AgentEvent::ToolEnd { step, ok, output } => seq![
            (
                Stream::Stderr,
                "[vesper] ■ #"@ + dec(step as nat) + (if ok {
                    " ok\n"@
                } else {
                    " ERR\n"@
                }) + first_lines(output@, 10),
                true,
            ),
        ],
        AgentEvent::Todos { items } => seq![(Stream::Stderr, "[vesper] todos:"@, true)]
            + todo_lines(views(items@)),
        AgentEvent::Verify { command, output, ok } => seq![
            (
                Stream::Stderr,
                "[vesper] verify `"@ + command@ + (if ok {
                    "` → PASS"@
                } else {
                    "` → FAIL"@
                }),
                true,
            ),
        ] + (if first_lines(output@, 12).len() == 0 {
            seq![]
        } else {
            seq![(Stream::Stderr, first_lines(output@, 12), true)]
        }),
        AgentEvent::StreamToken { token } => seq![(Stream::Stdout, token@, false)],
        AgentEvent::Final { message } => seq![
            (
                Stream::Stdout,
                if streamed {
                    Seq::<char>::empty()
                } else {
                    message@
                },
                true,
            ),
        ],
        AgentEvent::Checkpoint { id, label } => seq![
            (Stream::Stderr, "[vesper] checkpoint #"@ + dec(id as nat) + ": "@ + label@, true),
        ],
    }
}

/// Appends a printed line.
fn push_line(out: &mut Vec<Printed>, stream: Stream, text: String)
    ensures
        printed_view(final(out)@) == printed_view(old(out)@).push((stream, text@, true)),
{
    let ghost before = out@;
    out.push(line_to(stream, text));
    proof {
        assert(printed_view(out@) =~= printed_view(before).push((stream, text@, true)));
    }
}

/// What is printed for an event (`print_event`). `streamed` says whether tokens of the
/// answer were already printed; the caller keeps it (set by a token, cleared by the final
/// answer).
pub fn event_output(ev: &AgentEvent, streamed: bool) -> (r: Vec<Printed>)
    ensures
        printed_view(r@) == event_lines(*ev, streamed),
{
    let mut out: Vec<Printed> = Vec::new();
    proof {
        assert(printed_view(out@) =~= Seq::<(Stream, Seq<char>, bool)>::empty());
    }
    match ev {
        AgentEvent::Thinking { step } => {
            let mut s = owned("[vesper] thinking (step ");
            let d = crate::text::u64_to_string(*step as u64);
            push_str(&mut s, d.as_str());
            push_str(&mut s, ")…");
            push_line(&mut out, Stream::Stderr, s);
            proof {
                assert(printed_view(out@) =~= event_lines(*ev, streamed));
            }
        },
        AgentEvent::ToolStart { step, call } => {
            let mut s = owned("[vesper] ▶ #");
            let d = crate::text::u64_to_string(*step as u64);
            push_str(&mut s, d.as_str());
            push_str(&mut s, " ");
            push_str(&mut s, call.name.as_str());
            push_str(&mut s, " ");
            let a = short_args(call);
            push_str(&mut s, a.as_str());
            push_line(&mut out, Stream::Stderr, s);
            proof {
                assert(printed_view(out@) =~= event_lines(*ev, streamed));
            }
        },
        AgentEvent::DiffPreview { diff, .. } => {
            if !diff.as_str().is_empty() {
                push_line(&mut out, Stream::Stderr, diff.clone());
            }
            proof {
                assert(printed_view(out@) =~= event_lines(*ev, streamed));
            }
        },
        AgentEvent::AwaitingApproval { .. } => {},
        AgentEvent::ToolEnd { step, ok, output } => {
            let mut s = owned("[vesper] ■ #");
            let d = crate::text::u64_to_string(*step as u64);
            push_str(&mut s, d.as_str());
            push_str(&mut s, if *ok { " ok\n" } else { " ERR\n" });
            let p = head_lines(output.as_str(), 10);
            push_str(&mut s, p.as_str());
            push_line(&mut out, Stream::Stderr, s);
            proof {
                assert(printed_view(out@) =~= event_lines(*ev, streamed));
            }
        },
        AgentEvent::Todos { items } => {
            push_line(&mut out, Stream::Stderr, owned("[vesper] todos:"));
            let ghost head = printed_view(out@);
            let ghost iv = views(items@);
            let mut i: usize = 0;
            while i < items.len()
                invariant
                    i <= items@.len(),
                    iv == views(items@),
                    printed_view(out@) == head + todo_lines(iv).take(i as int),
                decreases items@.len() - i,
            {
                let mut s = owned("  ");
                let d = crate::text::succ_to_string(i);
                push_str(&mut s, d.as_str());
                push_str(&mut s, ". ");
                push_str(&mut s, items[i].as_str());
                push_line(&mut out, Stream::Stderr, s);
                proof {
                    assert(todo_lines(iv).take(i + 1) =~= todo_lines(iv).take(i as int).push(
                        todo_lines(iv)[i as int],
                    ));
                    assert(printed_view(out@) =~= head + todo_lines(iv).take(i + 1));
                }
                i += 1;
            }
            proof {
                assert(todo_lines(iv).take(iv.len() as int) =~= todo_lines(iv));
                assert(printed_view(out@) =~= event_lines(*ev, streamed));
            }
        },
        AgentEvent::Verify { command, output, ok } => {
            let mut s = owned("[vesper] verify `");
            push_str(&mut s, command.as_str());
            push_str(&mut s, if *ok { "` → PASS" } else { "` → FAIL" });
            push_line(&mut out, Stream::Stderr, s);
            let p = head_lines(output.as_str(), 12);
            if !p.as_str().is_empty() {
                push_line(&mut out, Stream::Stderr, p);
            }
            proof {
                assert(printed_view(out@) =~= event_lines(*ev, streamed));
            }
        },
        AgentEvent::StreamToken { token } => {
            out.push(Printed { stream: Stream::Stdout, text: token.clone(), newline: false });
            proof {
                assert(printed_view(out@) =~= event_lines(*ev, streamed));
            }
        },
        AgentEvent::Final { message } => {
            if streamed {
                push_line(&mut out, Stream::Stdout, String::new());
            } else {
                push_line(&mut out, Stream::Stdout, message.clone());
            }
            proof {
                assert(printed_view(out@) =~= event_lines(*ev, streamed));
            }
        },
        AgentEvent::Checkpoint { id, label } => {
            let mut s = owned("[vesper] checkpoint #");
            let d = usize_to_string(*id);
            push_str(&mut s, d.as_str());
            push_str(&mut s, ": ");
            push_str(&mut s, label.as_str());
            push_line(&mut out, Stream::Stderr, s);
            proof {
                assert(printed_view(out@) =~= event_lines(*ev, streamed));
            }
        },
    }
    out
}

} // verus!
