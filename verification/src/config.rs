//! Session modes and layered settings: defaults, overlays and `config set` keys.
use vstd::prelude::*;

use crate::paths::{join_path, join_path_seq};
use crate::text::{opt_view, all_ascii, ascii_lower_char, chars_of, is_ws, owned, spec_to_lowercase, to_lowercase, trim, trim_end_seq, trim_seq, trim_start_seq};

verus! {

/// How much autonomy a session grants to mutating tools.
#[derive(Debug, Clone, Copy, PartialEq, Eq, Structural)]
pub enum SessionMode {
    /// Research only: mutating tools are not offered.
    Plan,
    /// Mutating tools show a preview and ask first.
    Ask,
    /// Routine edits run; destructive ones still ask.
    Auto,
}

/// The name of a mode.
pub open spec fn mode_name(m: SessionMode) -> Seq<char> {
    match m {
        SessionMode::Plan => seq!['p', 'l', 'a', 'n'],
        SessionMode::Ask => seq!['a', 's', 'k'],
        SessionMode::Auto => seq!['a', 'u', 't', 'o'],
    }
}

/// The mode whose name is `s`, if any.
pub open spec fn mode_named(s: Seq<char>) -> Option<SessionMode> {
    if s == mode_name(SessionMode::Plan) {
        Some(SessionMode::Plan)
    } else if s == mode_name(SessionMode::Ask) {
        Some(SessionMode::Ask)
    } else if s == mode_name(SessionMode::Auto) {
        Some(SessionMode::Auto)
    } else {
        None
    }
}

/// The next mode in the order plan → ask → auto → plan.
pub open spec fn mode_next(m: SessionMode) -> SessionMode {
    match m {
        SessionMode::Plan => SessionMode::Ask,
        SessionMode::Ask => SessionMode::Auto,
        SessionMode::Auto => SessionMode::Plan,
    }
}

/// The mode a session starts in.
pub open spec fn default_mode() -> SessionMode {
    SessionMode::Ask
}

impl SessionMode {
    /// The mode's name: `plan`, `ask` or `auto`.
    pub fn as_str(self) -> (r: &'static str)
        ensures
            r@ == mode_name(self),
    {
        proof {
            reveal_strlit("plan");
            reveal_strlit("ask");
            reveal_strlit("auto");
        }
        match self {
            SessionMode::Plan => "plan",
            SessionMode::Ask => "ask",
            SessionMode::Auto => "auto",
        }
    }

    /// Reads a mode name, ignoring surrounding whitespace and case.
    pub fn parse(s: &str) -> (r: Option<SessionMode>)
        ensures
            r == mode_named(spec_to_lowercase(trim_seq(s@))),
    {
        let t = trim(s);
        let l = to_lowercase(t.as_str());
        Self::from_name(l.as_str())
    }

    /// The mode named exactly `s`.
    pub fn from_name(s: &str) -> (r: Option<SessionMode>)
        ensures
            r == mode_named(s@),
    {
        let v = chars_of(s);
        proof {
            assert(mode_name(SessionMode::Plan) == seq!['p', 'l', 'a', 'n']);
        }
        if v.len() == 4 && v[0] == 'p' && v[1] == 'l' && v[2] == 'a' && v[3] == 'n' {
            assert(v@ =~= mode_name(SessionMode::Plan));
            Some(SessionMode::Plan)
        } else if v.len() == 3 && v[0] == 'a' && v[1] == 's' && v[2] == 'k' {
            assert(v@ =~= mode_name(SessionMode::Ask));
            Some(SessionMode::Ask)
        } else if v.len() == 4 && v[0] == 'a' && v[1] == 'u' && v[2] == 't' && v[3] == 'o' {
            assert(v@ =~= mode_name(SessionMode::Auto));
            Some(SessionMode::Auto)
        } else {
            proof {
                if v@ == mode_name(SessionMode::Plan) {
                    assert(v@[0] == 'p' && v@[1] == 'l' && v@[2] == 'a' && v@[3] == 'n');
                }
                if v@ == mode_name(SessionMode::Ask) {
                    assert(v@[0] == 'a' && v@[1] == 's' && v@[2] == 'k');
                }
                if v@ == mode_name(SessionMode::Auto) {
                    assert(v@[0] == 'a' && v@[1] == 'u' && v@[2] == 't' && v@[3] == 'o');
                }
            }
            None
        }
    }

    /// The next mode: plan → ask → auto → plan.
    pub fn cycle(self) -> (r: SessionMode)
        ensures
            r == mode_next(self),
    {
        match self {
            SessionMode::Plan => SessionMode::Ask,
            SessionMode::Ask => SessionMode::Auto,
            SessionMode::Auto => SessionMode::Plan,
        }
    }
}

impl Default for SessionMode {
    fn default() -> (r: SessionMode)
        ensures
            r == default_mode(),
    {
        SessionMode::Ask
    }
}

/// Reading back a mode's own name gives the mode.
pub proof fn law_mode_name_roundtrip(m: SessionMode)
    ensures
        mode_named(mode_name(m)) == Some(m),
        trim_seq(mode_name(m)) == mode_name(m),
        all_ascii(mode_name(m)),
{
    let n = mode_name(m);
    assert(!is_ws(n[0]));
    assert(!is_ws(n.last()));
    assert(n.len() > 0);
    assert(trim_start_seq(n) == n);
    assert(trim_end_seq(n) == n);
}

/// Parsing the name that `as_str` gives back returns the same mode.
pub proof fn law_mode_parse_as_str(m: SessionMode, lowered: Seq<char>)
    requires
        lowered == spec_to_lowercase(mode_name(m)),
        all_ascii(mode_name(m)) ==> lowered == mode_name(m).map_values(|c: char| ascii_lower_char(c)),
    ensures
        mode_named(spec_to_lowercase(trim_seq(mode_name(m)))) == Some(m),
{
    law_mode_name_roundtrip(m);
    assert(lowered =~= mode_name(m));
}

/// Cycling three times returns to the starting mode, and never stays put.
pub proof fn law_mode_cycle_period(m: SessionMode)
    ensures
        mode_next(mode_next(mode_next(m))) == m,
        mode_next(m) != m,
{
}

// ---------------------------------------------------------------------------
// Settings
// ---------------------------------------------------------------------------

/// One MCP stdio plugin server.
#[derive(Debug)]
pub struct McpServerConfig {
    pub name: String,
    pub command: String,
    pub args: Vec<String>,
    /// Extra environment variables for the server process, as name and value.
    pub env: Vec<(String, String)>,
    pub enabled: bool,
}

impl McpServerConfig {
    /// A server entry with nothing set; enabled.
    pub fn empty() -> (r: McpServerConfig)
        ensures
            r.name@.len() == 0,
            r.command@.len() == 0,
            r.args@.len() == 0,
            r.env@.len() == 0,
            r.enabled,
    {
        McpServerConfig {
            name: String::new(),
            command: String::new(),
            args: Vec::new(),
            env: Vec::new(),
            enabled: true,
        }
    }
}

/// The settings of a session. The sampling temperature, a float, is kept by the caller.
#[derive(Debug)]
pub struct Config {
    pub model: String,
    pub ollama_host: String,
    pub mode: SessionMode,
    pub verify_command: Option<String>,
    pub max_steps: u32,
    pub num_ctx: u32,
    pub num_predict: i32,
    pub keep_alive: String,
    pub mcp_servers: Vec<McpServerConfig>,
    pub watch_interval: u64,
}

/// The default model name.
pub open spec fn default_model_name() -> Seq<char> {
    seq!['q', 'w', 'e', 'n', '2', '.', '5', '-', 'c', 'o', 'd', 'e', 'r', ':', '1', '4', 'b']
}

/// The default Ollama URL.
pub open spec fn default_ollama_url() -> Seq<char> {
    seq![
        'h', 't', 't', 'p', ':', '/', '/', '1', '2', '7', '.', '0', '.', '0', '.', '1', ':', '1',
        '1', '4', '3', '4',
    ]
}

/// The default keep-alive period.
pub open spec fn default_keep_alive_text() -> Seq<char> {
    seq!['3', '0', 'm']
}

/// The default model name.
pub fn default_model() -> (r: String)
    ensures
        r@ == default_model_name(),
{
    proof {
        reveal_strlit("qwen2.5-coder:14b");
    }
    owned("qwen2.5-coder:14b")
}

/// The default Ollama URL.
pub fn default_ollama() -> (r: String)
    ensures
        r@ == default_ollama_url(),
{
    proof {
        reveal_strlit("http://127.0.0.1:11434");
    }
    owned("http://127.0.0.1:11434")
}

/// The default step budget of a run.
pub fn default_max_steps() -> (r: u32)
    ensures
        r == 16,
{
    16
}

/// The default context window.
pub fn default_num_ctx() -> (r: u32)
    ensures
        r == 4096,
{
    4096
}

/// The default number of tokens to predict.
pub fn default_num_predict() -> (r: i32)
    ensures
        r == 640,
{
    640
}

/// The default keep-alive period.
pub fn default_keep_alive() -> (r: String)
    ensures
        r@ == default_keep_alive_text(),
{
    proof {
        reveal_strlit("30m");
    }
    owned("30m")
}

/// The default watch interval in seconds.
pub fn default_watch_interval() -> (r: u64)
    ensures
        r == 5,
{
    5
}

/// An MCP server entry is enabled unless it says otherwise.
pub fn default_true() -> (r: bool)
    ensures
        r,
{
    true
}

/// The defaults of every setting.
pub open spec fn is_default_config(c: Config) -> bool {
    &&& c.model@ == default_model_name()
    &&& c.ollama_host@ == default_ollama_url()
    &&& c.mode == SessionMode::Ask
    &&& c.verify_command is None
    &&& c.max_steps == 16
    &&& c.num_ctx == 4096
    &&& c.num_predict == 640
    &&& c.keep_alive@ == default_keep_alive_text()
    &&& c.mcp_servers@.len() == 0
    &&& c.watch_interval == 5
}

impl Default for Config {
    fn default() -> (r: Config)
        ensures
            is_default_config(r),
    {
        Config {
            model: default_model(),
            ollama_host: default_ollama(),
            mode: SessionMode::Ask,
            verify_command: None,
            max_steps: default_max_steps(),
            num_ctx: default_num_ctx(),
            num_predict: default_num_predict(),
            keep_alive: default_keep_alive(),
            mcp_servers: Vec::new(),
            watch_interval: default_watch_interval(),
        }
    }
}

/// The per-project settings directory name.
pub open spec fn vesper_dir_name() -> Seq<char> {
    seq!['.', 'v', 'e', 's', 'p', 'e', 'r']
}

/// The settings file name.
pub open spec fn config_file_name() -> Seq<char> {
    seq!['c', 'o', 'n', 'f', 'i', 'g', '.', 'j', 's', 'o', 'n']
}

impl Config {
    /// `<home>/.vesper/config.json`, where `home` is the user's home directory (or `.`).
    pub fn global_path(home: &str) -> (r: String)
        ensures
            r@ == join_path_seq(join_path_seq(home@, vesper_dir_name()), config_file_name()),
    {
        proof {
            reveal_strlit(".vesper");
            reveal_strlit("config.json");
        }
        let d = join_path(home, ".vesper");
        join_path(d.as_str(), "config.json")
    }

    /// `<workspace>/.vesper`.
    pub fn project_dir(workspace: &str) -> (r: String)
        ensures
            r@ == join_path_seq(workspace@, vesper_dir_name()),
    {
        proof {
            reveal_strlit(".vesper");
        }
        join_path(workspace, ".vesper")
    }

    /// `<workspace>/.vesper/config.json`.
    pub fn project_path(workspace: &str) -> (r: String)
        ensures
            r@ == join_path_seq(join_path_seq(workspace@, vesper_dir_name()), config_file_name()),
    {
        proof {
            reveal_strlit("config.json");
        }
        let d = Self::project_dir(workspace);
        join_path(d.as_str(), "config.json")
    }

    /// The verify command to suggest, from which manifests the workspace holds:
    /// Cargo → `cargo test`; pyproject/pytest.ini → `pytest -q`; package.json → `npm test`;
    /// go.mod → `go test ./...`; otherwise none.
    pub fn suggest_verify(
        has_cargo: bool,
        has_pyproject: bool,
        has_pytest_ini: bool,
        has_package_json: bool,
        has_go_mod: bool,
    ) -> (r: Option<String>)
        ensures
            opt_view(r) == suggested_verify(
                has_cargo,
                has_pyproject,
                has_pytest_ini,
                has_package_json,
                has_go_mod,
            ),
    {
        proof {
            reveal_strlit("cargo test");
            reveal_strlit("pytest -q");
            reveal_strlit("npm test");
            reveal_strlit("go test ./...");
        }
        if has_cargo {
            Some(owned("cargo test"))
        } else if has_pyproject || has_pytest_ini {
            Some(owned("pytest -q"))
        } else if has_package_json {
            Some(owned("npm test"))
        } else if has_go_mod {
            Some(owned("go test ./..."))
        } else {
            None
        }
    }

    /// Applies an overlay: each setting the overlay holds replaces the current one.
    pub fn apply_overlay(&mut self, o: ConfigOverlay)
        ensures
            *final(self) == overlay_applied(*old(self), o),
    {
        if let Some(v) = o.model {
            self.model = v;
        }
        if let Some(v) = o.ollama_host {
            self.ollama_host = v;
        }
        if let Some(v) = o.mode {
            self.mode = v;
        }
        if let Some(v) = o.verify_command {
            self.verify_command = Some(v);
        }
        if let Some(v) = o.max_steps {
            self.max_steps = v;
        }
        if let Some(v) = o.num_ctx {
            self.num_ctx = v;
        }
        if let Some(v) = o.num_predict {
            self.num_predict = v;
        }
        if let Some(v) = o.keep_alive {
            self.keep_alive = v;
        }
        if let Some(v) = o.mcp_servers {
            self.mcp_servers = v;
        }
        if let Some(v) = o.watch_interval {
            self.watch_interval = v;
        }
    }
}

/// The overlay a settings file holds, or the empty one where there is no file.
pub open spec fn overlay_or_empty(o: Option<ConfigOverlay>) -> ConfigOverlay {
    match o {
        Some(x) => x,
        None => ConfigOverlay::spec_empty(),
    }
}

/// `c` with the model and the Ollama URL that the environment sets, where it sets them.
pub open spec fn with_env(c: Config, env_model: Option<String>, env_url: Option<String>) -> Config {
    Config {
        model: or_keep(env_model, c.model),
        ollama_host: or_keep(env_url, c.ollama_host),
        ..c
    }
}

impl Config {
    /// The settings in effect: the defaults, then the global file, then the project file, then
    /// `VESPER_MODEL` and `VESPER_OLLAMA_URL` from the environment. Each file is given as the
    /// overlay it holds (`None` where it does not exist).
    pub fn load_layered(
        global: Option<ConfigOverlay>,
        project: Option<ConfigOverlay>,
        env_model: Option<String>,
        env_url: Option<String>,
    ) -> (r: Config)
        ensures
            exists|d: Config|
                #[trigger] is_default_config(d) && r == with_env(
                    overlay_applied(
                        overlay_applied(d, overlay_or_empty(global)),
                        overlay_or_empty(project),
                    ),
                    env_model,
                    env_url,
                ),
    {
        let mut cfg = Config::default();
        let ghost d = cfg;
        if let Some(o) = global {
            cfg.apply_overlay(o);
        }
        if let Some(o) = project {
            cfg.apply_overlay(o);
        }
        if let Some(m) = env_model {
            cfg.model = m;
        }
        if let Some(u) = env_url {
            cfg.ollama_host = u;
        }
        proof {
            assert(is_default_config(d));
        }
        cfg
    }
}

/// The settings `Config::load` gives: the project file's settings where there is one, else the
/// global file's, else the defaults (a file replaces what came before as a whole), then the
/// environment's model and Ollama URL.
pub open spec fn loaded(
    d: Config,
    global: Option<Config>,
    project: Option<Config>,
    env_model: Option<String>,
    env_url: Option<String>,
) -> Config {
    with_env(
        match project {
            Some(p) => p,
            None => match global {
                Some(g) => g,
                None => d,
            },
        },
        env_model,
        env_url,
    )
}

impl Config {
    /// The settings read as whole files (each read with defaults for what it leaves out):
    /// the project's where present, else the global ones, else the defaults; then the
    /// environment's model and Ollama URL. (`load_layered` merges the files key by key.)
    pub fn load(
        global: Option<Config>,
        project: Option<Config>,
        env_model: Option<String>,
        env_url: Option<String>,
    ) -> (r: Config)
        ensures
            exists|d: Config| #[trigger] is_default_config(d) && r == loaded(d, global, project, env_model, env_url),
    {
        let d = Config::default();
        let ghost gd = d;
        let mut cfg = match project {
            Some(p) => p,
            None => match global {
                Some(g) => g,
                None => d,
            },
        };
        if let Some(m) = env_model {
            cfg.model = m;
        }
        if let Some(u) = env_url {
            cfg.ollama_host = u;
        }
        proof {
            assert(is_default_config(gd));
        }
        cfg
    }
}

/// The verify command suggested for a workspace by its manifests.
pub open spec fn suggested_verify(
    has_cargo: bool,
    has_pyproject: bool,
    has_pytest_ini: bool,
    has_package_json: bool,
    has_go_mod: bool,
) -> Option<Seq<char>> {
    if has_cargo {
        Some(seq!['c', 'a', 'r', 'g', 'o', ' ', 't', 'e', 's', 't'])
    } else if has_pyproject || has_pytest_ini {
        Some(seq!['p', 'y', 't', 'e', 's', 't', ' ', '-', 'q'])
    } else if has_package_json {
        Some(seq!['n', 'p', 'm', ' ', 't', 'e', 's', 't'])
    } else if has_go_mod {
        Some(seq!['g', 'o', ' ', 't', 'e', 's', 't', ' ', '.', '/', '.', '.', '.'])
    } else {
        None
    }
}

/// A partial layer of settings: only what it holds overrides.
#[derive(Debug)]
pub struct ConfigOverlay {
    pub model: Option<String>,
    pub ollama_host: Option<String>,
    pub mode: Option<SessionMode>,
    pub verify_command: Option<String>,
    pub max_steps: Option<u32>,
    pub num_ctx: Option<u32>,
    pub num_predict: Option<i32>,
    pub keep_alive: Option<String>,
    pub mcp_servers: Option<Vec<McpServerConfig>>,
    pub watch_interval: Option<u64>,
}

/// `v` if present, else `d`.
pub open spec fn or_keep<T>(v: Option<T>, d: T) -> T {
    match v {
        Some(x) => x,
        None => d,
    }
}

/// `c` with every setting that `o` holds replaced.
pub open spec fn overlay_applied(c: Config, o: ConfigOverlay) -> Config {
    Config {
        model: or_keep(o.model, c.model),
        ollama_host: or_keep(o.ollama_host, c.ollama_host),
        mode: or_keep(o.mode, c.mode),
        verify_command: match o.verify_command {
            Some(v) => Some(v),
            None => c.verify_command,
        },
        max_steps: or_keep(o.max_steps, c.max_steps),
        num_ctx: or_keep(o.num_ctx, c.num_ctx),
        num_predict: or_keep(o.num_predict, c.num_predict),
        keep_alive: or_keep(o.keep_alive, c.keep_alive),
        mcp_servers: or_keep(o.mcp_servers, c.mcp_servers),
        watch_interval: or_keep(o.watch_interval, c.watch_interval),
    }
}

/// The first present of two options.
pub open spec fn first_some<T>(a: Option<T>, b: Option<T>) -> Option<T> {
    match a {
        Some(x) => Some(x),
        None => b,
    }
}

/// Two overlays stacked into one: `top` wins where it holds a setting.
pub open spec fn overlay_stack(bottom: ConfigOverlay, top: ConfigOverlay) -> ConfigOverlay {
    ConfigOverlay {
        model: first_some(top.model, bottom.model),
        ollama_host: first_some(top.ollama_host, bottom.ollama_host),
        mode: first_some(top.mode, bottom.mode),
        verify_command: first_some(top.verify_command, bottom.verify_command),
        max_steps: first_some(top.max_steps, bottom.max_steps),
        num_ctx: first_some(top.num_ctx, bottom.num_ctx),
        num_predict: first_some(top.num_predict, bottom.num_predict),
        keep_alive: first_some(top.keep_alive, bottom.keep_alive),
        mcp_servers: first_some(top.mcp_servers, bottom.mcp_servers),
        watch_interval: first_some(top.watch_interval, bottom.watch_interval),
    }
}

/// Layering: applying a global then a project overlay is applying the project overlay
/// stacked on the global one; settings neither holds keep their value.
pub proof fn law_overlay_layering(c: Config, global: ConfigOverlay, project: ConfigOverlay)
    ensures
        overlay_applied(overlay_applied(c, global), project) == overlay_applied(
            c,
            overlay_stack(global, project),
        ),
{
}

/// An empty overlay changes nothing, and applying an overlay twice is applying it once.
pub proof fn law_overlay_idempotent(c: Config, o: ConfigOverlay)
    ensures
        overlay_applied(overlay_applied(c, o), o) == overlay_applied(c, o),
        overlay_applied(c, ConfigOverlay::spec_empty()) == c,
{
}

impl ConfigOverlay {
    /// The overlay that holds nothing.
    pub open spec fn spec_empty() -> ConfigOverlay {
        ConfigOverlay {
            model: None,
            ollama_host: None,
            mode: None,
            verify_command: None,
            max_steps: None,
            num_ctx: None,
            num_predict: None,
            keep_alive: None,
            mcp_servers: None,
            watch_interval: None,
        }
    }

    /// The overlay that holds nothing.
    pub fn empty() -> (r: ConfigOverlay)
        ensures
            r == ConfigOverlay::spec_empty(),
    {
        ConfigOverlay {
            model: None,
            ollama_host: None,
            mode: None,
            verify_command: None,
            max_steps: None,
            num_ctx: None,
            num_predict: None,
            keep_alive: None,
            mcp_servers: None,
            watch_interval: None,
        }
    }

    /// Records one setting in the overlay. A temperature is kept by the caller.
    pub fn set(&mut self, s: Setting)
        ensures
            *final(self) == overlay_with(*old(self), s),
    {
        match s {
            Setting::Model(v) => self.model = Some(v),
            Setting::OllamaHost(v) => self.ollama_host = Some(v),
            Setting::Mode(v) => self.mode = Some(v),
            Setting::VerifyCommand(v) => self.verify_command = Some(v),
            Setting::MaxSteps(v) => self.max_steps = Some(v),
            Setting::Temperature(_) => {},
            Setting::NumCtx(v) => self.num_ctx = Some(v),
            Setting::NumPredict(v) => self.num_predict = Some(v),
            Setting::KeepAlive(v) => self.keep_alive = Some(v),
            Setting::WatchInterval(v) => self.watch_interval = Some(v),
        }
    }
}

/// One `config set` assignment, its value read.
#[derive(Debug)]
pub enum Setting {
    Model(String),
    OllamaHost(String),
    Mode(SessionMode),
    VerifyCommand(String),
    MaxSteps(u32),
    /// The temperature's text, which the caller reads as a float.
    Temperature(String),
    NumCtx(u32),
    NumPredict(i32),
    KeepAlive(String),
    WatchInterval(u64),
}

/// `o` with the setting `s` recorded.
pub open spec fn overlay_with(o: ConfigOverlay, s: Setting) -> ConfigOverlay {
    match s {
        Setting::Model(v) => ConfigOverlay { model: Some(v), ..o },
        Setting::OllamaHost(v) => ConfigOverlay { ollama_host: Some(v), ..o },
        Setting::Mode(v) => ConfigOverlay { mode: Some(v), ..o },
        Setting::VerifyCommand(v) => ConfigOverlay { verify_command: Some(v), ..o },
        Setting::MaxSteps(v) => ConfigOverlay { max_steps: Some(v), ..o },
        Setting::Temperature(_) => o,
        Setting::NumCtx(v) => ConfigOverlay { num_ctx: Some(v), ..o },
        Setting::NumPredict(v) => ConfigOverlay { num_predict: Some(v), ..o },
        Setting::KeepAlive(v) => ConfigOverlay { keep_alive: Some(v), ..o },
        Setting::WatchInterval(v) => ConfigOverlay { watch_interval: Some(v), ..o },
    }
}

/// Why a `config set` was refused.
#[derive(Debug)]
pub enum ConfigError {
    /// The key is not a setting.
    UnknownKey(String),
    /// The mode is not `plan`, `ask` or `auto`.
    BadMode,
    /// The value is not an integer of the setting's type.
    BadNumber,
}

/// A value written by `config set` reads back: after recording it in any overlay and
/// applying that overlay to any settings, the setting holds the value.
pub proof fn law_set_then_read(c: Config, o: ConfigOverlay, s: Setting)
    ensures
        ({
            let r = overlay_applied(c, overlay_with(o, s));
            match s {
                Setting::Model(v) => r.model == v,
                Setting::OllamaHost(v) => r.ollama_host == v,
                Setting::Mode(v) => r.mode == v,
                Setting::VerifyCommand(v) => r.verify_command == Some(v),
                Setting::MaxSteps(v) => r.max_steps == v,
                Setting::Temperature(_) => r == overlay_applied(c, o),
                Setting::NumCtx(v) => r.num_ctx == v,
                Setting::NumPredict(v) => r.num_predict == v,
                Setting::KeepAlive(v) => r.keep_alive == v,
                Setting::WatchInterval(v) => r.watch_interval == v,
            }
        }),
{
}

// ---------------------------------------------------------------------------
// Reading `config set` values
// ---------------------------------------------------------------------------

/// Every character is an ASCII digit.
pub open spec fn all_digits(s: Seq<char>) -> bool {
    forall|i: int| 0 <= i < s.len() ==> '0' <= #[trigger] s[i] <= '9'
}

/// The value of a string of ASCII digits.
pub open spec fn digits_value(s: Seq<char>) -> nat
    decreases s.len(),
{
    if s.len() == 0 {
        0
    } else {
        digits_value(s.drop_last()) * 10 + ((s.last() as u32) - 48) as nat
    }
}

/// The magnitude `str::parse` reads for an unsigned integer: an optional `+`, then one or
/// more ASCII digits.
pub open spec fn unsigned_text(s: Seq<char>) -> Option<nat> {
    let body = if s.len() > 0 && s[0] == '+' {
        s.drop_first()
    } else {
        s
    };
    if body.len() > 0 && all_digits(body) {
        Some(digits_value(body))
    } else {
        None
    }
}

/// What `s.parse::<uN>()` gives for an unsigned type with maximum `max`.
pub open spec fn parse_unsigned(s: Seq<char>, max: nat) -> Option<nat> {
    match unsigned_text(s) {
        Some(v) => if v <= max {
            Some(v)
        } else {
            None
        },
        None => None,
    }
}

/// What `s.parse::<i32>()` gives: an optional sign, then one or more ASCII digits, in range.
pub open spec fn parse_i32_spec(s: Seq<char>) -> Option<int> {
    if s.len() > 0 && s[0] == '-' {
        let body = s.drop_first();
        if body.len() > 0 && all_digits(body) && digits_value(body) <= 0x8000_0000 {
            Some(-(digits_value(body) as int))
        } else {
            None
        }
    } else {
        match parse_unsigned(s, 0x7fff_ffff) {
            Some(v) => Some(v as int),
            None => None,
        }
    }
}

/// Reads ASCII digits `v[lo..]`, failing past `max`.
fn read_digits(v: &Vec<char>, lo: usize, max: u64) -> (r: Option<u64>)
    requires
        lo <= v.len(),
    ensures
        ({
            let body = v@.skip(lo as int);
            match r {
                Some(n) => body.len() > 0 && all_digits(body) && n == digits_value(body) && n
                    <= max,
                None => !(body.len() > 0 && all_digits(body) && digits_value(body) <= max),
            }
        }),
{
    let ghost body = v@.skip(lo as int);
    if lo == v.len() {
        return None;
    }
    let mut acc: u64 = 0;
    let mut i = lo;
    while i < v.len()
        invariant
            lo <= i <= v.len(),
            body == v@.skip(lo as int),
            all_digits(v@.subrange(lo as int, i as int)),
            acc == digits_value(v@.subrange(lo as int, i as int)),
            acc <= max,
        decreases v.len() - i,
    {
        let c = v[i];
        proof {
            assert(v@.subrange(lo as int, i + 1).drop_last() =~= v@.subrange(lo as int, i as int));
        }
        if !('0' <= c && c <= '9') {
            proof {
                assert(body[i - lo] == c);
            }
            return None;
        }
        let d = (c as u32 - 48) as u64;
        if d > max || acc > (max - d) / 10 {
            proof {
                let pre = v@.subrange(lo as int, i + 1);
                assert(pre.last() == c);
                assert(digits_value(pre) == acc * 10 + d);
                assert(acc * 10 + d > max) by (nonlinear_arith)
                    requires
                        d > max || acc > (max - d) / 10,
                        d <= 9,
                ;
                if body.len() > 0 && all_digits(body) {
                    assert(pre =~= body.take(i + 1 - lo));
                    lemma_digits_grow(pre, body);
                }
            }
            return None;
        }
        acc = acc * 10 + d;
        i += 1;
    }
    proof {
        assert(v@.subrange(lo as int, v@.len() as int) =~= body);
    }
    Some(acc)
}

/// The value of a prefix of a digit string bounds the value of the whole.
proof fn lemma_digits_grow(pre: Seq<char>, whole: Seq<char>)
    requires
        pre.len() <= whole.len(),
        pre == whole.take(pre.len() as int),
        all_digits(whole),
    ensures
        digits_value(pre) <= digits_value(whole),
    decreases whole.len(),
{
    if pre.len() < whole.len() {
        assert(whole.drop_last().take(pre.len() as int) =~= pre);
        assert forall|i: int| 0 <= i < whole.drop_last().len() implies '0' <= #[trigger] whole.drop_last()[i] <= '9' by {
            assert(whole.drop_last()[i] == whole[i]);
        }
        lemma_digits_grow(pre, whole.drop_last());
        assert('0' <= whole[whole.len() - 1]);
    } else {
        assert(pre =~= whole);
    }
}

/// `s.parse::<u64>()` restricted to values at most `max`.
fn parse_unsigned_bounded(s: &str, max: u64) -> (r: Option<u64>)
    ensures
        match r {
            Some(n) => parse_unsigned(s@, max as nat) == Some(n as nat),
            None => parse_unsigned(s@, max as nat) is None,
        },
{
    let v = chars_of(s);
    let lo: usize = if v.len() > 0 && v[0] == '+' {
        1
    } else {
        0
    };
    proof {
        if lo == 1 {
            assert(v@.skip(1) =~= v@.drop_first());
        } else {
            assert(v@.skip(0) =~= v@);
        }
    }
    read_digits(&v, lo, max)
}

/// `s.parse::<u32>()`.
pub fn parse_u32(s: &str) -> (r: Option<u32>)
    ensures
        match r {
            Some(n) => parse_unsigned(s@, u32::MAX as nat) == Some(n as nat),
            None => parse_unsigned(s@, u32::MAX as nat) is None,
        },
{
    match parse_unsigned_bounded(s, u32::MAX as u64) {
        Some(n) => Some(n as u32),
        None => None,
    }
}

/// `s.parse::<u64>()`.
pub fn parse_u64(s: &str) -> (r: Option<u64>)
    ensures
        match r {
            Some(n) => parse_unsigned(s@, u64::MAX as nat) == Some(n as nat),
            None => parse_unsigned(s@, u64::MAX as nat) is None,
        },
{
    parse_unsigned_bounded(s, u64::MAX)
}

/// `s.parse::<usize>()`.
pub fn parse_usize(s: &str) -> (r: Option<usize>)
    ensures
        match r {
            Some(n) => parse_unsigned(s@, usize::MAX as nat) == Some(n as nat),
            None => parse_unsigned(s@, usize::MAX as nat) is None,
        },
{
    match parse_unsigned_bounded(s, usize::MAX as u64) {
        Some(n) => Some(n as usize),
        None => None,
    }
}

/// `s.parse::<i32>()`.
pub fn parse_i32(s: &str) -> (r: Option<i32>)
    ensures
        match r {
            Some(n) => parse_i32_spec(s@) == Some(n as int),
            None => parse_i32_spec(s@) is None,
        },
{
    let v = chars_of(s);
    if v.len() > 0 && v[0] == '-' {
        proof {
            assert(v@.skip(1) =~= v@.drop_first());
        }
        match read_digits(&v, 1, 0x8000_0000) {
            Some(n) => Some((0 - (n as i64)) as i32),
            None => None,
        }
    } else {
        match parse_unsigned_bounded(s, 0x7fff_ffff) {
            Some(n) => Some(n as i32),
            None => None,
        }
    }
}

/// The setting that `config set <key> <value>` names, its value read; `ollama_url` is
/// another name for `ollama_host`.
pub fn parse_setting(key: &str, value: &str) -> (r: Result<Setting, ConfigError>)
    ensures
        setting_matches(key@, value@, r),
{
    proof {
        reveal_strlit("model");
        reveal_strlit("ollama_host");
        reveal_strlit("ollama_url");
        reveal_strlit("mode");
        reveal_strlit("verify_command");
        reveal_strlit("max_steps");
        reveal_strlit("temperature");
        reveal_strlit("num_ctx");
        reveal_strlit("num_predict");
        reveal_strlit("keep_alive");
        reveal_strlit("watch_interval");
    }
    let k = owned(key);
    if k.eq(&owned("model")) {
        Ok(Setting::Model(owned(value)))
    } else if k.eq(&owned("ollama_host")) || k.eq(&owned("ollama_url")) {
        Ok(Setting::OllamaHost(owned(value)))
    } else if k.eq(&owned("mode")) {
        match SessionMode::parse(value) {
            Some(m) => Ok(Setting::Mode(m)),
            None => Err(ConfigError::BadMode),
        }
    } else if k.eq(&owned("verify_command")) {
        Ok(Setting::VerifyCommand(owned(value)))
    } else if k.eq(&owned("max_steps")) {
        match parse_u32(value) {
            Some(n) => Ok(Setting::MaxSteps(n)),
            None => Err(ConfigError::BadNumber),
        }
    } else if k.eq(&owned("temperature")) {
        Ok(Setting::Temperature(owned(value)))
    } else if k.eq(&owned("num_ctx")) {
        match parse_u32(value) {
            Some(n) => Ok(Setting::NumCtx(n)),
            None => Err(ConfigError::BadNumber),
        }
    } else if k.eq(&owned("num_predict")) {
        match parse_i32(value) {
            Some(n) => Ok(Setting::NumPredict(n)),
            None => Err(ConfigError::BadNumber),
        }
    } else if k.eq(&owned("keep_alive")) {
        Ok(Setting::KeepAlive(owned(value)))
    } else if k.eq(&owned("watch_interval")) {
        match parse_u64(value) {
            Some(n) => Ok(Setting::WatchInterval(n)),
            None => Err(ConfigError::BadNumber),
        }
    } else {
        Err(ConfigError::UnknownKey(k))
    }
}

/// `config set <key> <value>` on an overlay: the setting is read and recorded, or the overlay
/// is left as it was and the error says why.
pub fn set_key(overlay: &mut ConfigOverlay, key: &str, value: &str) -> (r: Result<(), ConfigError>)
    ensures
        match r {
            Ok(()) => exists|s: Setting|
                #[trigger] setting_matches(key@, value@, Ok(s)) && *final(overlay) == overlay_with(
                    *old(overlay),
                    s,
                ),
            Err(e) => setting_matches(key@, value@, Err(e)) && *final(overlay) == *old(overlay),
        },
{
    match parse_setting(key, value) {
        Ok(s) => {
            let ghost g = s;
            overlay.set(s);
            proof {
                assert(setting_matches(key@, value@, Ok(g)));
            }
            Ok(())
        },
        Err(e) => Err(e),
    }
}

/// `r` is what `config set key value` gives.
pub open spec fn setting_matches(key: Seq<char>, value: Seq<char>, r: Result<Setting, ConfigError>) -> bool {
    if key == "model"@ {
        r matches Ok(Setting::Model(v)) && v@ == value
    } else if key == "ollama_host"@ || key == "ollama_url"@ {
        r matches Ok(Setting::OllamaHost(v)) && v@ == value
    } else if key == "mode"@ {
        match mode_named(spec_to_lowercase(trim_seq(value))) {
            Some(m) => r matches Ok(Setting::Mode(v)) && v == m,
            None => r matches Err(ConfigError::BadMode),
        }
    } else if key == "verify_command"@ {
        r matches Ok(Setting::VerifyCommand(v)) && v@ == value
    } else if key == "max_steps"@ {
        match parse_unsigned(value, u32::MAX as nat) {
            Some(n) => r matches Ok(Setting::MaxSteps(v)) && v == n,
            None => r matches Err(ConfigError::BadNumber),
        }
    } else if key == "temperature"@ {
        r matches Ok(Setting::Temperature(v)) && v@ == value
    } else if key == "num_ctx"@ {
        match parse_unsigned(value, u32::MAX as nat) {
            Some(n) => r matches Ok(Setting::NumCtx(v)) && v == n,
            None => r matches Err(ConfigError::BadNumber),
        }
    } else if key == "num_predict"@ {
        match parse_i32_spec(value) {
            Some(n) => r matches Ok(Setting::NumPredict(v)) && v == n,
            None => r matches Err(ConfigError::BadNumber),
        }
    } else if key == "keep_alive"@ {
        r matches Ok(Setting::KeepAlive(v)) && v@ == value
    } else if key == "watch_interval"@ {
        match parse_unsigned(value, u64::MAX as nat) {
            Some(n) => r matches Ok(Setting::WatchInterval(v)) && v == n,
            None => r matches Err(ConfigError::BadNumber),
        }
    } else {
        r matches Err(ConfigError::UnknownKey(k)) && k@ == key
    }
}

} // verus!
