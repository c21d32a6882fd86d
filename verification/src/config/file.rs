//! The shape of the configuration file.
//!
//! Every section has a default, so a file only names what it changes and an
//! empty one is complete.
use vstd::prelude::*;

use crate::table::Table;
use crate::text::texts;

verus! {

/// A whole configuration file.
pub struct File {
    /// Where the harness listens and what it serves.
    pub server: Server,
    /// Where things are, relative to the project root unless absolute.
    pub paths: Paths,
    /// The model provider.
    pub llm: Llm,
    /// The agent's loop.
    pub agent: Agent,
    /// The models on offer.
    pub models: Vec<Model>,
    /// The modes on offer.
    pub modes: Vec<Mode>,
    /// How long things may run.
    pub budgets: Budgets,
    /// How much things may use.
    pub limits: Limits,
    /// Prompt caching.
    pub cache: Cache,
    /// How guests are built.
    pub build: Build,
    /// How failures are noticed.
    pub watchdog: Watchdog,
    /// Self-modification.
    pub devkit: Devkit,
    /// The exec sandbox.
    pub sandbox: Sandbox,
    /// The host's files.
    pub filesystem: Filesystem,
    /// Shell sessions.
    pub terminal: Terminal,
    /// Restarting the process.
    pub control: Control,
    /// What the sandbox hands to a guest.
    pub wasi: Wasi,
    /// Free-form per-tool settings. Shapes are up to each tool, so this is
    /// carried as-is rather than being given a schema here.
    pub tools: Table<toml::Value>,
}

impl File {
    /// Whether this is what an empty file says.
    pub open spec fn usual(self) -> bool {
        &&& self.server.usual()
        &&& self.paths.usual()
        &&& self.llm.usual()
        &&& self.agent.usual()
        &&& self.budgets.usual()
        &&& self.limits.usual()
        &&& self.cache.usual()
        &&& self.build.usual()
        &&& self.watchdog.usual()
        &&& self.devkit.usual()
        &&& self.sandbox.usual()
        &&& self.filesystem.usual()
        &&& self.terminal.usual()
        &&& self.control.usual()
        &&& self.wasi.usual()
        &&& self.models@.len() == 0
        &&& self.modes@.len() == 0
        &&& self.tools@ == Map::<Seq<char>, toml::Value>::empty()
    }
}

impl Default for File {
    fn default() -> (r: File)
        ensures
            r.usual(),
    {
        File {
            server: Server::default(),
            paths: Paths::default(),
            llm: Llm::default(),
            agent: Agent::default(),
            models: Vec::new(),
            modes: Vec::new(),
            budgets: Budgets::default(),
            limits: Limits::default(),
            cache: Cache::default(),
            build: Build::default(),
            watchdog: Watchdog::default(),
            devkit: Devkit::default(),
            sandbox: Sandbox::default(),
            filesystem: Filesystem::default(),
            terminal: Terminal::default(),
            control: Control::default(),
            wasi: Wasi::default(),
            tools: Table::new(),
        }
    }
}

/// One model on offer.
#[derive(Debug, Clone, PartialEq, Eq)]
pub struct Model {
    /// Its id.
    pub id: String,
    /// Its label. Empty means the id.
    pub label: String,
}

/// One mode on offer.
#[derive(Debug, Clone, PartialEq, Eq)]
pub struct Mode {
    /// Its id.
    pub id: String,
    /// Its label. Empty means the id.
    pub label: String,
    /// What it is for.
    pub description: String,
    /// Whether tools that change things are withheld.
    pub read_only: bool,
}

/// Where the harness listens and what it serves.
#[derive(Debug, Clone, PartialEq, Eq)]
pub struct Server {
    /// Host and port to listen on.
    pub bind: String,
    /// Gateway that serves the browser UI.
    pub primary_gateway: String,
    /// Whether the admin page is served.
    pub admin_enabled: bool,
}

impl Server {
    /// Whether every setting is its default.
    pub open spec fn usual(self) -> bool {
        &&& self.bind@ == "127.0.0.1:7777"@
        &&& self.primary_gateway@ == "web"@
        &&& self.admin_enabled
    }
}

impl Default for Server {
    fn default() -> (r: Server)
        ensures
            r.usual(),
    {
        let r = Server {
            bind: "127.0.0.1:7777".to_owned(),
            primary_gateway: "web".to_owned(),
            admin_enabled: true,
        };
        r
    }
}

/// Where things are, relative to the project root unless absolute.
#[derive(Debug, Clone, PartialEq, Eq)]
pub struct Paths {
    /// State.
    pub data: String,
    /// Built components.
    pub artifacts: String,
    /// Skills.
    pub skills: String,
    /// Templates for new components.
    pub templates: String,
    /// The contract between host and guests.
    pub wit: String,
    /// The agent's source tree.
    pub agent: String,
    /// Directory of the gateway crates.
    pub gateways: String,
    /// What their names begin with.
    pub gateway_prefix: String,
    /// Directory of the tool crates.
    pub tools: String,
    /// What their names begin with.
    pub tool_prefix: String,
}

impl Paths {
    /// Whether every setting is its default.
    pub open spec fn usual(self) -> bool {
        &&& self.data@ == "data"@
        &&& self.artifacts@ == "artifacts"@
        &&& self.skills@ == "skills"@
        &&& self.templates@ == "templates"@
        &&& self.wit@ == "wit"@
        &&& self.agent@ == "agents/agent-core"@
        &&& self.gateways@ == "gateways"@
        &&& self.gateway_prefix@ == "gateway-"@
        &&& self.tools@ == "tools"@
        &&& self.tool_prefix@ == ""@
    }
}

impl Default for Paths {
    fn default() -> (r: Paths)
        ensures
            r.usual(),
    {
        let r = Paths {
            data: "data".to_owned(),
            artifacts: "artifacts".to_owned(),
            skills: "skills".to_owned(),
            templates: "templates".to_owned(),
            wit: "wit".to_owned(),
            agent: "agents/agent-core".to_owned(),
            gateways: "gateways".to_owned(),
            gateway_prefix: "gateway-".to_owned(),
            tools: "tools".to_owned(),
            tool_prefix: "".to_owned(),
        };
        r
    }
}

/// The model provider.
///
/// It holds the raw key, so it cannot be printed.
#[derive(PartialEq, Eq)]
pub struct Llm {
    /// Where requests go.
    pub base_url: String,
    /// The model used by default, where the file names one.
    pub model: Option<String>,
    /// The key, if it is not in the environment.
    pub api_key: String,
    /// How long a request may take.
    pub request_timeout_secs: u64,
    /// How often a request is tried again.
    pub max_retries: u32,
}

impl Llm {
    /// Whether every setting is its default.
    pub open spec fn usual(self) -> bool {
        &&& self.base_url@ == "https://openrouter.ai/api/v1"@
        &&& self.model is None
        &&& self.api_key@ == ""@
        &&& self.request_timeout_secs == 180
        &&& self.max_retries == 3
    }
}

impl Default for Llm {
    fn default() -> (r: Llm)
        ensures
            r.usual(),
    {
        let r = Llm {
            base_url: "https://openrouter.ai/api/v1".to_owned(),
            model: None,
            api_key: "".to_owned(),
            request_timeout_secs: 180,
            max_retries: 3,
        };
        r
    }
}

/// The agent's loop.
#[derive(Debug, Clone, PartialEq, Eq)]
pub struct Agent {
    /// How many rounds a turn may take.
    pub max_iterations: u32,
    /// The mode of a new session.
    pub default_mode: String,
    /// Inline prompt. Ignored when `system_prompt_file` is set.
    pub system_prompt: String,
    /// Path to a prompt file, relative to the project root.
    pub system_prompt_file: String,
}

impl Agent {
    /// Whether every setting is its default.
    pub open spec fn usual(self) -> bool {
        &&& self.max_iterations == 32
        &&& self.default_mode@ == "agent"@
        &&& self.system_prompt@ == ""@
        &&& self.system_prompt_file@ == ""@
    }
}

impl Default for Agent {
    fn default() -> (r: Agent)
        ensures
            r.usual(),
    {
        let r = Agent {
            max_iterations: 32,
            default_mode: "agent".to_owned(),
            system_prompt: "".to_owned(),
            system_prompt_file: "".to_owned(),
        };
        r
    }
}

/// How long things may run.
#[derive(Debug, Clone, PartialEq, Eq)]
pub struct Budgets {
    /// A turn.
    pub turn_secs: u64,
    /// A guest without yielding.
    pub wasm_slice_secs: u64,
    /// A tool.
    pub tool_secs: u64,
    /// A probe.
    pub probe_secs: u64,
}

impl Budgets {
    /// Whether every setting is its default.
    pub open spec fn usual(self) -> bool {
        &&& self.turn_secs == 300
        &&& self.wasm_slice_secs == 10
        &&& self.tool_secs == 30
        &&& self.probe_secs == 5
    }
}

impl Default for Budgets {
    fn default() -> (r: Budgets)
        ensures
            r.usual(),
    {
        let r = Budgets {
            turn_secs: 300,
            wasm_slice_secs: 10,
            tool_secs: 30,
            probe_secs: 5,
        };
        r
    }
}

/// How much things may use.
#[derive(Debug, Clone, PartialEq, Eq)]
pub struct Limits {
    /// Memory of the agent.
    pub agent_memory_mb: usize,
    /// Memory of a tool.
    pub tool_memory_mb: usize,
    /// Memory of a gateway.
    pub gateway_memory_mb: usize,
    /// Output of a tool.
    pub max_tool_output_bytes: usize,
    /// Size of an attachment.
    pub max_attachment_bytes: usize,
    /// Attachments of a message.
    pub max_attachments: usize,
}

impl Limits {
    /// Whether every setting is its default.
    pub open spec fn usual(self) -> bool {
        &&& self.agent_memory_mb == 512
        &&& self.tool_memory_mb == 128
        &&& self.gateway_memory_mb == 128
        &&& self.max_tool_output_bytes == 32_768
        &&& self.max_attachment_bytes == 8_388_608
        &&& self.max_attachments == 8
    }
}

impl Default for Limits {
    fn default() -> (r: Limits)
        ensures
            r.usual(),
    {
        let r = Limits {
            agent_memory_mb: 512,
            tool_memory_mb: 128,
            gateway_memory_mb: 128,
            max_tool_output_bytes: 32_768,
            max_attachment_bytes: 8_388_608,
            max_attachments: 8,
        };
        r
    }
}

/// Prompt caching.
#[derive(Debug, Clone, PartialEq, Eq)]
pub struct Cache {
    /// Whether it is on.
    pub enabled: bool,
    /// How long entries live.
    pub ttl: String,
    /// How far apart the anchors sit.
    pub anchor_stride: usize,
    /// Vendors that cache nothing without being told to.
    pub explicit_vendors: Vec<String>,
}

impl Cache {
    /// Whether every setting is its default.
    pub open spec fn usual(self) -> bool {
        &&& self.enabled
        &&& self.ttl@ == "5m"@
        &&& self.anchor_stride == 8
        &&& texts(self.explicit_vendors@) == seq!["anthropic"@]
    }
}

impl Default for Cache {
    fn default() -> (r: Cache)
        ensures
            r.usual(),
    {
        let r = Cache {
            enabled: true,
            ttl: "5m".to_owned(),
            anchor_stride: 8,
            explicit_vendors: vec!["anthropic".to_owned()],
        };
        assert(texts(r.explicit_vendors@) =~= seq!["anthropic"@]);
        r
    }
}

/// How guests are built.
#[derive(Debug, Clone, PartialEq, Eq)]
pub struct Build {
    /// The build command.
    pub command: String,
    /// The compilation target.
    pub target: String,
    /// The build profile.
    pub profile: String,
    /// Where build output goes.
    pub target_dir: String,
    /// Whether resolution is kept reproducible.
    pub locked: bool,
    /// More arguments.
    pub extra_args: Vec<String>,
    /// How long a build may run.
    pub timeout_secs: u64,
    /// Crates a guest may depend on. Empty means no restriction.
    pub allowed_crates: Vec<String>,
}

impl Build {
    /// Whether every setting is its default.
    pub open spec fn usual(self) -> bool {
        &&& self.command@ == "cargo"@
        &&& self.target@ == "wasm32-wasip2"@
        &&& self.profile@ == "release"@
        &&& self.target_dir@ == "target-wasm"@
        &&& self.locked
        &&& texts(self.extra_args@) == Seq::<Seq<char>>::empty()
        &&& self.timeout_secs == 900
        &&& texts(self.allowed_crates@) == Seq::<Seq<char>>::empty()
    }
}

impl Default for Build {
    fn default() -> (r: Build)
        ensures
            r.usual(),
    {
        let r = Build {
            command: "cargo".to_owned(),
            target: "wasm32-wasip2".to_owned(),
            profile: "release".to_owned(),
            target_dir: "target-wasm".to_owned(),
            locked: true,
            extra_args: Vec::new(),
            timeout_secs: 900,
            allowed_crates: Vec::new(),
        };
        assert(texts(r.extra_args@) =~= Seq::<Seq<char>>::empty());
        assert(texts(r.allowed_crates@) =~= Seq::<Seq<char>>::empty());
        r
    }
}

/// What the sandbox hands to a guest.
#[derive(Debug, Clone, PartialEq, Eq)]
pub struct Wasi {
    /// Outbound sockets.
    pub network: bool,
    /// Name resolution.
    pub dns: bool,
    /// The host's environment variables, where the API keys live.
    pub env: bool,
    /// The host's standard streams.
    pub stdio: bool,
    /// Directories guests may read and write.
    pub dirs: Vec<String>,
}

impl Wasi {
    /// Whether every setting is its default.
    pub open spec fn usual(self) -> bool {
        &&& self.network
        &&& self.dns
        &&& !self.env
        &&& !self.stdio
        &&& texts(self.dirs@) == seq!["workspace"@]
    }
}

impl Default for Wasi {
    fn default() -> (r: Wasi)
        ensures
            r.usual(),
    {
        let r = Wasi {
            network: true,
            dns: true,
            env: false,
            stdio: false,
            dirs: vec!["workspace".to_owned()],
        };
        assert(texts(r.dirs@) =~= seq!["workspace"@]);
        r
    }
}

/// How failures are noticed.
#[derive(Debug, Clone, PartialEq, Eq)]
pub struct Watchdog {
    /// How long a failure counts.
    pub failure_window_secs: u64,
    /// How many failures trip the breaker.
    pub failure_threshold: usize,
    /// How often the agent is probed.
    pub probe_interval_secs: u64,
    /// How long the watcher ignores the harness's own writes.
    pub watch_suppression_secs: u64,
    /// How long the watcher waits for a save to settle.
    pub debounce_ms: u64,
}

impl Watchdog {
    /// Whether every setting is its default.
    pub open spec fn usual(self) -> bool {
        &&& self.failure_window_secs == 120
        &&& self.failure_threshold == 3
        &&& self.probe_interval_secs == 30
        &&& self.watch_suppression_secs == 5
        &&& self.debounce_ms == 500
    }
}

impl Default for Watchdog {
    fn default() -> (r: Watchdog)
        ensures
            r.usual(),
    {
        let r = Watchdog {
            failure_window_secs: 120,
            failure_threshold: 3,
            probe_interval_secs: 30,
            watch_suppression_secs: 5,
            debounce_ms: 500,
        };
        r
    }
}

/// Self-modification.
#[derive(Debug, Clone, PartialEq, Eq)]
pub struct Devkit {
    /// Whether it is on.
    pub enabled: bool,
    /// Files that decide what runs during a build.
    pub protected_files: Vec<String>,
    /// Directories that decide what runs during a build.
    pub protected_dirs: Vec<String>,
}

impl Devkit {
    /// Whether every setting is its default.
    pub open spec fn usual(self) -> bool {
        &&& self.enabled
        &&& texts(self.protected_files@) == seq!["Cargo.toml"@, "Cargo.lock"@, "build.rs"@]
        &&& texts(self.protected_dirs@) == seq![".cargo"@, "target"@]
    }
}

impl Default for Devkit {
    fn default() -> (r: Devkit)
        ensures
            r.usual(),
    {
        let r = Devkit {
            enabled: true,
            protected_files: vec!["Cargo.toml".to_owned(), "Cargo.lock".to_owned(), "build.rs".to_owned()],
            protected_dirs: vec![".cargo".to_owned(), "target".to_owned()],
        };
        assert(texts(r.protected_files@) =~= seq!["Cargo.toml"@, "Cargo.lock"@, "build.rs"@]);
        assert(texts(r.protected_dirs@) =~= seq![".cargo"@, "target"@]);
        r
    }
}

/// The exec sandbox.
#[derive(Debug, Clone, PartialEq, Eq)]
pub struct Sandbox {
    /// Whether it is on.
    pub enabled: bool,
}

impl Sandbox {
    /// Whether every setting is its default.
    pub open spec fn usual(self) -> bool {
        &&& !self.enabled
    }
}

impl Default for Sandbox {
    fn default() -> (r: Sandbox)
        ensures
            r.usual(),
    {
        let r = Sandbox {
            enabled: false,
        };
        r
    }
}

/// The host's files.
#[derive(Debug, Clone, PartialEq, Eq)]
pub struct Filesystem {
    /// Whether they can be reached.
    pub enabled: bool,
    /// Where. Empty means the project root.
    pub roots: Vec<String>,
    /// The largest file that is read.
    pub max_read_bytes: usize,
    /// Names that are neither written nor deleted.
    pub protected: Vec<String>,
    /// Whether anything is deleted.
    pub allow_delete: bool,
}

impl Filesystem {
    /// Whether every setting is its default.
    pub open spec fn usual(self) -> bool {
        &&& self.enabled
        &&& texts(self.roots@) == Seq::<Seq<char>>::empty()
        &&& self.max_read_bytes == 1_048_576
        &&& texts(self.protected@) == seq!["data"@, "artifacts"@, ".git"@]
        &&& self.allow_delete
    }
}

impl Default for Filesystem {
    fn default() -> (r: Filesystem)
        ensures
            r.usual(),
    {
        let r = Filesystem {
            enabled: true,
            roots: Vec::new(),
            max_read_bytes: 1_048_576,
            protected: vec!["data".to_owned(), "artifacts".to_owned(), ".git".to_owned()],
            allow_delete: true,
        };
        assert(texts(r.roots@) =~= Seq::<Seq<char>>::empty());
        assert(texts(r.protected@) =~= seq!["data"@, "artifacts"@, ".git"@]);
        r
    }
}

/// Shell sessions.
#[derive(Debug, Clone, PartialEq, Eq)]
pub struct Terminal {
    /// Whether they can be opened.
    pub enabled: bool,
    /// The shell. Empty means whatever suits the platform.
    pub shell: String,
    /// Its arguments. Empty means whatever suits the platform.
    pub shell_args: Vec<String>,
    /// How many can be open.
    pub max_sessions: usize,
    /// How long a command is waited for.
    pub default_timeout_ms: u64,
    /// How much output is kept.
    pub max_output_bytes: usize,
    /// When an idle session is closed.
    pub idle_timeout_secs: u64,
}

impl Terminal {
    /// Whether every setting is its default.
    pub open spec fn usual(self) -> bool {
        &&& self.enabled
        &&& self.shell@ == ""@
        &&& texts(self.shell_args@) == Seq::<Seq<char>>::empty()
        &&& self.max_sessions == 4
        &&& self.default_timeout_ms == 30_000
        &&& self.max_output_bytes == 65_536
        &&& self.idle_timeout_secs == 1_800
    }
}

impl Default for Terminal {
    fn default() -> (r: Terminal)
        ensures
            r.usual(),
    {
        let r = Terminal {
            enabled: true,
            shell: "".to_owned(),
            shell_args: Vec::new(),
            max_sessions: 4,
            default_timeout_ms: 30_000,
            max_output_bytes: 65_536,
            idle_timeout_secs: 1_800,
        };
        assert(texts(r.shell_args@) =~= Seq::<Seq<char>>::empty());
        r
    }
}

/// Restarting the process.
#[derive(Debug, Clone, PartialEq, Eq)]
pub struct Control {
    /// Whether the agent may ask for it.
    pub allow_restart: bool,
    /// How long the process must have run.
    pub min_uptime_secs: u64,
    /// How long the restart waits for the turn to end.
    pub restart_delay_ms: u64,
}

impl Control {
    /// Whether every setting is its default.
    pub open spec fn usual(self) -> bool {
        &&& self.allow_restart
        &&& self.min_uptime_secs == 20
        &&& self.restart_delay_ms == 1_500
    }
}

impl Default for Control {
    fn default() -> (r: Control)
        ensures
            r.usual(),
    {
        let r = Control {
            allow_restart: true,
            min_uptime_secs: 20,
            restart_delay_ms: 1_500,
        };
        r
    }
}

} // verus!
