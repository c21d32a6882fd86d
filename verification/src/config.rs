//! Configuration.
//!
//! Three layers, each overriding the one before it:
//!
//!   1. the defaults, so Genesis runs with no configuration at all
//!   2. `genesis.toml` (or `$GENESIS_CONFIG`), the normal place to change things
//!   3. environment variables, for per-run overrides and secrets
//!
//! The OpenRouter key may be set in the file or in the environment, with the
//! environment winning. It is held in a `Secret`, which cannot be printed, so
//! it cannot reach a log by accident.
use vstd::prelude::*;

use crate::document;
use crate::document::toml_tree;
use crate::paths;
use crate::paths::{below, last_name, renamed, stem};
use crate::slot::{slot_key, slot_subdir, Slot, SlotView};
use crate::table::Table;
use crate::text;
use crate::text::{
    bool_value, cut, decimal, joined, outcome_of, pieces, replaced, text_of, texts, trimmed, unsigned_value,
    zero_padded,
};
use crate::time::{span_of_millis, span_of_secs, Span};

pub mod file;

use crate::config::file::{File, Mode, Model};

verus! {

// --- runtime configuration --------------------------------------------------

/// A value that must never be printed.
#[derive(Clone, PartialEq, Eq)]
pub struct Secret(String);

impl View for Secret {
    type V = Seq<char>;

    closed spec fn view(&self) -> Seq<char> {
        self.0@
    }
}

impl Secret {
    /// Holds a value that must never be printed.
    pub fn new(value: &str) -> (r: Secret)
        ensures
            r@ == value@,
    {
        Secret(value.to_owned())
    }

    /// The value, for the one place that needs it.
    pub fn expose(&self) -> (r: &str)
        ensures
            r@ == self@,
    {
        self.0.as_str()
    }

    /// What may be printed in its place.
    pub fn shown(&self) -> (r: String)
        ensures
            r@ == secret_text(self@),
    {
        if text::is_empty(self.0.as_str()) {
            "Secret(empty)".to_owned()
        } else {
            "Secret(***)".to_owned()
        }
    }
}

/// What may be printed in place of a secret: only whether there is one.
pub open spec fn secret_text(value: Seq<char>) -> Seq<char> {
    if value.len() == 0 {
        "Secret(empty)"@
    } else {
        "Secret(***)"@
    }
}

/// One model on offer.
#[derive(Debug, Clone, PartialEq, Eq)]
pub struct ModelSpec {
    /// Its id.
    pub id: String,
    /// Its label.
    pub label: String,
}

/// What a model on offer says.
pub struct ModelView {
    /// Its id.
    pub id: Seq<char>,
    /// Its label.
    pub label: Seq<char>,
}

impl View for ModelSpec {
    type V = ModelView;

    open spec fn view(&self) -> ModelView {
        ModelView { id: self.id@, label: self.label@ }
    }
}

/// What each model of a list says.
pub open spec fn model_views(items: Seq<ModelSpec>) -> Seq<ModelView> {
    items.map_values(|m: ModelSpec| m@)
}

/// One mode on offer.
#[derive(Debug, Clone, PartialEq, Eq)]
pub struct ModeSpec {
    /// Its id.
    pub id: String,
    /// Its label.
    pub label: String,
    /// What it is for.
    pub description: String,
    /// Whether tools that change things are withheld in this mode. Carried to
    /// the agent so a new mode needs no agent code.
    pub read_only: bool,
}

/// What a mode on offer says.
pub struct ModeView {
    /// Its id.
    pub id: Seq<char>,
    /// Its label.
    pub label: Seq<char>,
    /// What it is for.
    pub description: Seq<char>,
    /// Whether tools that change things are withheld.
    pub read_only: bool,
}

impl View for ModeSpec {
    type V = ModeView;

    open spec fn view(&self) -> ModeView {
        ModeView {
            id: self.id@,
            label: self.label@,
            description: self.description@,
            read_only: self.read_only,
        }
    }
}

/// What each mode of a list says.
pub open spec fn mode_views(items: Seq<ModeSpec>) -> Seq<ModeView> {
    items.map_values(|m: ModeSpec| m@)
}

/// The ids of a list of modes.
pub open spec fn mode_ids(items: Seq<ModeView>) -> Seq<Seq<char>> {
    items.map_values(|m: ModeView| m.id)
}

/// Where things are.
#[derive(Debug, Clone, PartialEq, Eq)]
pub struct Paths {
    /// State.
    pub data: String,
    /// Built components.
    pub artifacts: String,
    /// Skills.
    pub skills: String,
    /// Templates for new components.
    pub templates: String,
    /// The contract between host and guests.
    pub wit: String,
    /// The agent's source tree.
    pub agent: String,
    /// Directory holding gateway crates.
    pub gateways: String,
    /// The prefix their names carry.
    pub gateway_prefix: String,
    /// Directory holding tool crates.
    pub tools: String,
    /// The prefix their names carry.
    pub tool_prefix: String,
}

/// How guests are built.
#[derive(Debug, Clone, PartialEq, Eq)]
pub struct BuildSettings {
    /// The build command.
    pub command: String,
    /// The compilation target.
    pub target: String,
    /// The build profile.
    pub profile: String,
    /// Shared target directory, so guests compile their dependencies once.
    pub target_dir: String,
    /// Pass `--locked` when a lockfile exists, keeping resolution reproducible.
    pub locked: bool,
    /// More arguments.
    pub extra_args: Vec<String>,
    /// How long a single build may run before it is killed.
    ///
    /// Builds hold a process-wide lock, so one that never returns would wedge
    /// every future build permanently. This is the backstop for that.
    pub timeout: Span,
    /// Crates a guest may depend on. Empty means no restriction.
    pub allowed_crates: Vec<String>,
}

/// What the WASI sandbox actually hands to a guest.
#[derive(Debug, Clone, PartialEq, Eq)]
pub struct WasiSettings {
    /// Outbound sockets. Any tool calling a web API needs it.
    pub network: bool,
    /// Name resolution. Without it a guest can only reach literal addresses.
    pub dns: bool,
    /// The host's environment variables.
    pub env: bool,
    /// The host's standard streams.
    pub stdio: bool,
    /// Directories handed to guests, readable and writable.
    pub dirs: Vec<String>,
}

/// How failures are noticed.
#[derive(Debug, Clone, Copy, PartialEq, Eq)]
pub struct WatchdogSettings {
    /// How long a failure counts.
    pub failure_window: Span,
    /// How many failures trip the breaker.
    pub failure_threshold: usize,
    /// How often the agent is probed.
    pub probe_interval: Span,
    /// How long the file watcher ignores a slot the harness just wrote to.
    pub watch_suppression: Span,
    /// How long the watcher waits for a save to settle.
    pub debounce: Span,
}

/// Self-modification.
#[derive(Debug, Clone, PartialEq, Eq)]
pub struct DevkitSettings {
    /// Whether it is on.
    pub enabled: bool,
    /// Files that decide what runs during a build; a host-side build executes
    /// them, so guests may not edit them.
    pub protected_files: Vec<String>,
    /// Directories of the same kind.
    pub protected_dirs: Vec<String>,
}

/// How a provider's prompt cache is driven.
#[derive(Debug, Clone, Copy, PartialEq, Eq, Structural)]
pub enum CacheStrategy {
    /// The provider caches long prefixes on its own; marking would only cost
    /// writes. Keeping the prefix stable is all that helps.
    Automatic,
    /// Nothing is cached unless a breakpoint says so.
    Breakpoints,
}

/// Prompt caching.
#[derive(Debug, Clone, PartialEq, Eq)]
pub struct CacheSettings {
    /// Whether it is on.
    pub enabled: bool,
    /// Cache lifetime, e.g. "5m" or "1h". A longer one costs more to write.
    pub ttl: String,
    /// How far apart the stable anchors sit in the message list.
    pub anchor_stride: usize,
    /// Vendors that need explicit breakpoints. Anything else is left automatic.
    pub explicit_vendors: Vec<String>,
}

/// Whether some text of a list is another's, letters of either case alike.
pub open spec fn lists(items: Seq<Seq<char>>, s: Seq<char>) -> bool {
    exists|i: int| 0 <= i < items.len() && text::same_letters(#[trigger] items[i], s)
}

/// Whether some string of a list is another's, letters of either case alike.
pub fn is_listed(items: &Vec<String>, s: &str) -> (r: bool)
    ensures
        r == lists(texts(items@), s@),
{
    for i in 0..items.len()
        invariant
            forall|j: int| 0 <= j < i ==> !text::same_letters(#[trigger] texts(items@)[j], s@),
    {
        if text::eq_ignore_case(items[i].as_str(), s) {
            assert(text::same_letters(texts(items@)[i as int], s@));
            return true;
        }
    }
    false
}

/// How a vendor's caching works: only what is marked is cached where the vendor is one
/// of those that want it so.
pub open spec fn cache_strategy(vendors: Seq<Seq<char>>, vendor: Seq<char>) -> CacheStrategy {
    if lists(vendors, vendor) {
        CacheStrategy::Breakpoints
    } else {
        CacheStrategy::Automatic
    }
}

impl CacheSettings {
    /// How the prompt cache of a vendor is driven.
    pub fn strategy_for(&self, vendor: &str) -> (r: CacheStrategy)
        ensures
            r == if lists(texts(self.explicit_vendors@), vendor@) {
                CacheStrategy::Breakpoints
            } else {
                CacheStrategy::Automatic
            },
            r == cache_strategy(texts(self.explicit_vendors@), vendor@),
    {
        if is_listed(&self.explicit_vendors, vendor) {
            CacheStrategy::Breakpoints
        } else {
            CacheStrategy::Automatic
        }
    }
}

/// The host's files.
#[derive(Debug, Clone, PartialEq, Eq)]
pub struct FilesystemSettings {
    /// Whether they can be reached.
    pub enabled: bool,
    /// Every path the agent touches must resolve inside one of these.
    pub roots: Vec<String>,
    /// The largest file that is read.
    pub max_read_bytes: usize,
    /// Names that may not be written or deleted anywhere under a root. This
    /// protects the system's own state from an accidental deletion, and is not
    /// a security boundary: a terminal session can reach them regardless.
    pub protected: Vec<String>,
    /// Whether anything is deleted.
    pub allow_delete: bool,
}

/// Shell sessions.
#[derive(Debug, Clone, PartialEq, Eq)]
pub struct TerminalSettings {
    /// Whether they can be opened.
    pub enabled: bool,
    /// The shell.
    pub shell: String,
    /// Its arguments.
    pub shell_args: Vec<String>,
    /// How many can be open.
    pub max_sessions: usize,
    /// How long a command is waited for.
    pub default_timeout: Span,
    /// How much output is kept.
    pub max_output_bytes: usize,
    /// When an idle session is closed.
    pub idle_timeout: Span,
}

/// Restarting the process.
#[derive(Debug, Clone, Copy, PartialEq, Eq)]
pub struct ControlSettings {
    /// Whether the agent may ask for it.
    pub allow_restart: bool,
    /// A restart is refused before this much uptime, so a misbehaving agent
    /// cannot put the process into a restart loop.
    pub min_uptime: Span,
    /// How long to wait after the call so the turn can finish and the user can
    /// read why.
    pub restart_delay: Span,
}

/// Everything the harness was configured with.
pub struct Config {
    /// Project root: the directory holding the config file and the source trees.
    pub root: String,
    /// The file this was loaded from, and the one edits are written back to.
    /// It need not exist: absent means everything came from defaults.
    pub config_path: String,
    /// Per-tool settings, keyed by tool name. Each tool is handed its own block
    /// and never sees another's.
    pub tools: Table<toml::Value>,
    /// Where things are.
    pub paths: Paths,
    /// Host and port to listen on.
    pub bind_addr: String,
    /// Gateway slot that serves the browser UI.
    pub primary_gateway: String,
    /// Whether the admin page is served.
    pub admin_enabled: bool,
    /// The key, if there is one.
    pub openrouter_api_key: Option<Secret>,
    /// Where requests go.
    pub openrouter_base: String,
    /// The model used by default.
    pub model: String,
    /// How long a request may take.
    pub request_timeout: Span,
    /// How often a request is tried again.
    pub max_retries: u32,
    /// The models on offer.
    pub models: Vec<ModelSpec>,
    /// What the agent is told at the start.
    pub system_prompt: String,
    /// How many rounds a turn may take.
    pub max_iterations: u32,
    /// The modes on offer.
    pub modes: Vec<ModeSpec>,
    /// The mode of a new session.
    pub default_mode: String,
    /// How long a turn may run.
    pub turn_budget: Span,
    /// How long a guest may run without yielding.
    pub wasm_slice: Span,
    /// How long a tool may run.
    pub tool_budget: Span,
    /// How long a probe may run.
    pub probe_budget: Span,
    /// Memory of the agent.
    pub agent_memory_bytes: usize,
    /// Memory of a tool.
    pub tool_memory_bytes: usize,
    /// Memory of a gateway.
    pub gateway_memory_bytes: usize,
    /// Output of a tool.
    pub max_tool_output_bytes: usize,
    /// Size of an attachment.
    pub max_attachment_bytes: usize,
    /// Attachments of a message.
    pub max_attachments: usize,
    /// Prompt caching.
    pub cache: CacheSettings,
    /// How guests are built.
    pub build: BuildSettings,
    /// What the sandbox hands to a guest.
    pub wasi: WasiSettings,
    /// How failures are noticed.
    pub watchdog: WatchdogSettings,
    /// Self-modification.
    pub devkit: DevkitSettings,
    /// The host's files.
    pub filesystem: FilesystemSettings,
    /// Shell sessions.
    pub terminal: TerminalSettings,
    /// Restarting the process.
    pub control: ControlSettings,
    /// Whether the exec sandbox is configured.
    pub sandbox_available: bool,
}

// --- what follows from a configuration --------------------------------------

/// The source directory of a slot.
pub open spec fn source_dir(p: Paths, slot: SlotView) -> Seq<char> {
    match slot {
        SlotView::Agent => p.agent@,
        SlotView::Gateway(n) => below(p.gateways@, p.gateway_prefix@ + n),
        SlotView::Tool(n) => below(p.tools@, p.tool_prefix@ + n),
    }
}

/// The package name of the crate behind a slot: the name of its directory.
pub open spec fn source_crate(p: Paths, slot: SlotView) -> Seq<char> {
    match last_name(source_dir(p, slot)) {
        Some(n) => n,
        None => slot_key(slot),
    }
}

/// The directory of one revision of a slot.
pub open spec fn revision_dir(p: Paths, slot: SlotView, revision: u64) -> Seq<char> {
    below(below(p.artifacts@, slot_subdir(slot)), "r"@ + zero_padded(revision as nat, 4))
}

/// The mode of a list with the given id, the first if there are several.
pub open spec fn find_mode(modes: Seq<ModeView>, id: Seq<char>) -> Option<ModeView>
    decreases modes.len(),
{
    if modes.len() == 0 {
        None
    } else if modes[0].id == id {
        Some(modes[0])
    } else {
        find_mode(modes.skip(1), id)
    }
}

impl Config {
    /// The database file.
    pub fn db_path(&self) -> (r: String)
        ensures
            r@ == below(self.paths.data@, "genesis.redb"@),
    {
        paths::join(self.paths.data.as_str(), "genesis.redb")
    }

    /// Source directory for a slot.
    pub fn slot_source_dir(&self, slot: &Slot) -> (r: String)
        ensures
            r@ == source_dir(self.paths, slot@),
    {
        match slot {
            Slot::Agent => self.paths.agent.clone(),
            Slot::Gateway(name) => paths::join(
                self.paths.gateways.as_str(),
                self.paths.gateway_prefix.clone().concat(name.as_str()).as_str(),
            ),
            Slot::Tool(name) => paths::join(
                self.paths.tools.as_str(),
                self.paths.tool_prefix.clone().concat(name.as_str()).as_str(),
            ),
        }
    }

    /// Package name of the crate backing a slot, taken from its directory so
    /// the convention lives in configuration rather than in code.
    pub fn slot_crate_name(&self, slot: &Slot) -> (r: String)
        ensures
            r@ == source_crate(self.paths, slot@),
    {
        match paths::file_name(self.slot_source_dir(slot).as_str()) {
            Some(n) => n,
            None => slot.key(),
        }
    }

    /// Filename the build emits for a slot's component.
    pub fn slot_wasm_filename(&self, slot: &Slot) -> (r: String)
        ensures
            r@ == replaced(source_crate(self.paths, slot@), "-"@, "_"@) + ".wasm"@,
    {
        proof {
            reveal_strlit("-");
        }
        text::replace(self.slot_crate_name(slot).as_str(), "-", "_").concat(".wasm")
    }

    /// The directory of one revision of a slot.
    pub fn slot_artifact_dir(&self, slot: &Slot, revision: u64) -> (r: String)
        ensures
            r@ == revision_dir(self.paths, slot@, revision),
    {
        let dir = paths::join(self.paths.artifacts.as_str(), slot.artifact_subdir().as_str());
        paths::join(
            dir.as_str(),
            "r".to_owned().concat(text::pad_number(revision, 4).as_str()).as_str(),
        )
    }

    /// One tool's settings as JSON, or `{}` when it has none configured.
    ///
    /// Scoped deliberately: a tool is handed its own block and cannot read
    /// another's, nor anything else in the configuration.
    pub fn tool_config_json(&self, tool: &str) -> (r: String)
        ensures
            r@ == document::json_or_empty(
                if self.tools@.contains_key(tool@) {
                    Some(toml_tree(self.tools@[tool@]))
                } else {
                    None
                },
            ),
    {
        document::to_json(self.tools.get(tool))
    }

    /// The mode with the given id.
    pub fn mode(&self, id: &str) -> (r: Option<&ModeSpec>)
        ensures
            match r {
                Some(m) => find_mode(mode_views(self.modes@), id@) == Some(m@),
                None => find_mode(mode_views(self.modes@), id@) is None,
            },
    {
        let ghost all = mode_views(self.modes@);
        let mut i: usize = 0;
        assert(all.skip(0) =~= all);
        while i < self.modes.len()
            invariant
                i <= self.modes@.len(),
                all == mode_views(self.modes@),
                find_mode(all.skip(i as int), id@) == find_mode(all, id@),
            decreases self.modes@.len() - i,
        {
            assert(all.skip(i as int).skip(1) =~= all.skip(i + 1));
            assert(all[i as int] == self.modes@[i as int]@);
            if text::same(self.modes[i].id.as_str(), id) {
                return Some(&self.modes[i]);
            }
            i = i + 1;
        }
        None
    }

    /// Directories the file watcher follows.
    pub fn watched_dirs(&self) -> (r: Vec<String>)
        ensures
            texts(r@) == seq![
                self.paths.agent@,
                self.paths.gateways@,
                self.paths.tools@,
                self.paths.wit@,
            ],
    {
        let r = vec![
            self.paths.agent.clone(),
            self.paths.gateways.clone(),
            self.paths.tools.clone(),
            self.paths.wit.clone(),
        ];
        assert(texts(r@) =~= seq![
            self.paths.agent@,
            self.paths.gateways@,
            self.paths.tools@,
            self.paths.wit@,
        ]);
        r
    }

    /// The overlay that sits beside the config file.
    pub fn local_overlay(&self) -> (r: String)
        ensures
            r@ == overlay_path(self.config_path@),
    {
        local_overlay_path(self.config_path.as_str())
    }
}

// --- where the configuration comes from -------------------------------------

/// The overlay beside a config file: `genesis.toml` becomes
/// `genesis.local.toml`, keeping any other stem intact.
pub open spec fn overlay_path(config_path: Seq<char>) -> Seq<char> {
    let name = match last_name(config_path) {
        Some(n) => stem(n),
        None => "genesis"@,
    };
    renamed(config_path, name + ".local.toml"@)
}

/// The overlay beside a config file.
pub fn local_overlay_path(config_path: &str) -> (r: String)
    ensures
        r@ == overlay_path(config_path@),
{
    let name = match paths::file_name(config_path) {
        Some(n) => paths::stem_of(n.as_str()),
        None => "genesis".to_owned(),
    };
    paths::with_file_name(config_path, name.concat(".local.toml").as_str())
}

/// A configured path: as it is where it is absolute, below the root otherwise.
pub open spec fn resolved(root: Seq<char>, value: Seq<char>) -> Seq<char> {
    if paths::absolute(value) {
        value
    } else {
        below(root, value)
    }
}

/// Joins a configured path onto the root unless it is already absolute.
pub fn resolve(root: &str, value: &str) -> (r: String)
    ensures
        r@ == resolved(root@, value@),
{
    if paths::is_absolute(value) {
        value.to_owned()
    } else {
        paths::join(root, value)
    }
}

/// Configured paths, each resolved.
pub open spec fn resolved_all(root: Seq<char>, values: Seq<Seq<char>>) -> Seq<Seq<char>> {
    values.map_values(|v: Seq<char>| resolved(root, v))
}

fn resolve_all(root: &str, values: &Vec<String>) -> (r: Vec<String>)
    ensures
        texts(r@) == resolved_all(root@, texts(values@)),
{
    let ghost all = resolved_all(root@, texts(values@));
    let mut out: Vec<String> = Vec::new();
    for i in 0..values.len()
        invariant
            all == resolved_all(root@, texts(values@)),
            texts(out@) == all.take(i as int),
    {
        let ghost had = out@;
        let item = resolve(root, values[i].as_str());
        out.push(item);
        proof {
            text::lemma_texts_push(had, item);
            assert(all.take(i + 1) =~= all.take(i as int).push(all[i as int]));
        }
    }
    assert(all.take(values@.len() as int) =~= all);
    out
}

/// The project root: the one named in the environment, or the one found above
/// the current directory, or the current directory.
pub open spec fn chosen_root(
    env: Map<Seq<char>, String>,
    found: Option<Seq<char>>,
    cwd: Seq<char>,
) -> Seq<char> {
    match env_text(env, "GENESIS_ROOT"@) {
        Some(r) => r,
        None => match found {
            Some(dir) => dir,
            None => cwd,
        },
    }
}

/// The project root, given what was found above the current directory.
pub fn choose_root(env: &Table<String>, found: &Option<String>, cwd: &str) -> (r: String)
    ensures
        r@ == chosen_root(env@, text_of(*found), cwd@),
{
    match env_string(env, "GENESIS_ROOT") {
        Some(r) => r,
        None => match found {
            Some(dir) => dir.clone(),
            None => cwd.to_owned(),
        },
    }
}

/// The config file: the one named in the environment, or the usual one.
pub open spec fn chosen_config(env: Map<Seq<char>, String>, root: Seq<char>) -> Seq<char> {
    match env_text(env, "GENESIS_CONFIG"@) {
        Some(p) => resolved(root, p),
        None => below(root, "genesis.toml"@),
    }
}

/// The config file to read.
pub fn choose_config(env: &Table<String>, root: &str) -> (r: String)
    ensures
        r@ == chosen_config(env@, root@),
{
    match env_string(env, "GENESIS_CONFIG") {
        Some(p) => resolve(root, p.as_str()),
        None => paths::join(root, "genesis.toml"),
    }
}

// --- the environment --------------------------------------------------------

/// An environment variable, if it is set and not blank.
pub open spec fn env_text(env: Map<Seq<char>, String>, key: Seq<char>) -> Option<Seq<char>> {
    if env.contains_key(key) && trimmed(env[key]@).len() > 0 {
        Some(env[key]@)
    } else {
        None
    }
}

/// An environment variable, if it is set and not blank.
pub fn env_string(env: &Table<String>, key: &str) -> (r: Option<String>)
    ensures
        text_of(r) == env_text(env@, key@),
{
    match env.get(key) {
        Some(v) => if text::is_blank(v.as_str()) {
            None
        } else {
            Some(v.clone())
        },
        None => None,
    }
}

/// An environment variable, or what was configured.
pub open spec fn env_or(
    env: Map<Seq<char>, String>,
    key: Seq<char>,
    current: Seq<char>,
) -> Seq<char> {
    match env_text(env, key) {
        Some(v) => v,
        None => current,
    }
}

fn env_string_or(env: &Table<String>, key: &str, current: String) -> (r: String)
    ensures
        r@ == env_or(env@, key@, current@),
{
    match env_string(env, key) {
        Some(v) => v,
        None => current,
    }
}

/// A number from the environment, or what was configured where it is not set
/// or is no number of that size.
pub open spec fn env_number(
    env: Map<Seq<char>, String>,
    key: Seq<char>,
    max: nat,
    current: nat,
) -> nat {
    match env_text(env, key) {
        Some(v) => match unsigned_value(v, max) {
            Some(n) => n,
            None => current,
        },
        None => current,
    }
}

fn env_u64(env: &Table<String>, key: &str, max: u64, current: u64) -> (r: u64)
    requires
        current <= max,
    ensures
        r == env_number(env@, key@, max as nat, current as nat),
        r <= max,
{
    match env_string(env, key) {
        Some(v) => match text::parse_unsigned(v.as_str(), max) {
            Some(n) => n,
            None => current,
        },
        None => current,
    }
}

fn env_u32(env: &Table<String>, key: &str, current: u32) -> (r: u32)
    ensures
        r == env_number(env@, key@, u32::MAX as nat, current as nat),
{
    env_u64(env, key, u32::MAX as u64, current as u64) as u32
}

fn env_usize(env: &Table<String>, key: &str, current: usize) -> (r: usize)
    ensures
        r == env_number(env@, key@, usize::MAX as nat, current as nat),
{
    env_u64(env, key, usize::MAX as u64, current as u64) as usize
}

/// A truth value from the environment, or what was configured where it is not
/// set or is none.
pub open spec fn env_flag(env: Map<Seq<char>, String>, key: Seq<char>, current: bool) -> bool {
    match env_text(env, key) {
        Some(v) => match bool_value(v) {
            Some(b) => b,
            None => current,
        },
        None => current,
    }
}

fn env_bool(env: &Table<String>, key: &str, current: bool) -> (r: bool)
    ensures
        r == env_flag(env@, key@, current),
{
    match env_string(env, key) {
        Some(v) => match text::parse_bool(v.as_str()) {
            Some(b) => b,
            None => current,
        },
        None => current,
    }
}

// --- the key ----------------------------------------------------------------

/// The key that counts. The environment wins, so a key can be overridden for
/// one run without editing the file. Blank in either place counts as absent:
/// an empty string would otherwise fail confusingly at request time rather
/// than at startup.
pub open spec fn key_text(from_env: Option<Seq<char>>, from_file: Seq<char>) -> Option<Seq<char>> {
    if from_env matches Some(k) && trimmed(k).len() > 0 {
        Some(trimmed(from_env->0))
    } else if trimmed(from_file).len() > 0 {
        Some(trimmed(from_file))
    } else {
        None
    }
}

/// What an optional secret holds.
pub open spec fn secret_of(s: Option<Secret>) -> Option<Seq<char>> {
    match s {
        Some(k) => Some(k@),
        None => None,
    }
}

/// The key that counts.
pub fn resolve_api_key(from_env: Option<String>, from_file: &str) -> (r: Option<Secret>)
    ensures
        secret_of(r) == key_text(text_of(from_env), from_file@),
{
    if let Some(k) = from_env {
        let key = text::trim(k.as_str());
        if !text::is_empty(key.as_str()) {
            return Some(Secret::new(key.as_str()));
        }
    }
    let key = text::trim(from_file);
    if text::is_empty(key.as_str()) {
        None
    } else {
        Some(Secret::new(key.as_str()))
    }
}

// --- models and modes -------------------------------------------------------

/// A label, or the id where there is none.
pub open spec fn label_or(label: Seq<char>, id: Seq<char>) -> Seq<char> {
    if label.len() == 0 {
        id
    } else {
        label
    }
}

fn labelled(label: &str, id: &str) -> (r: String)
    ensures
        r@ == label_or(label@, id@),
{
    if text::is_empty(label) {
        id.to_owned()
    } else {
        label.to_owned()
    }
}

/// What a build adds to the built-in list where nothing is configured.
#[derive(Debug, PartialEq, Eq)]
pub struct Catalogue {
    /// The model used by default.
    pub model: String,
    /// The models offered ahead of the built-in ones.
    pub models: Vec<ModelSpec>,
}

/// The models offered where nothing is configured: those of the build, then a
/// short list. Override it in `genesis.toml`: a provider's catalogue changes far
/// faster than this does.
pub open spec fn usual_models(ahead: Seq<ModelView>) -> Seq<ModelView> {
    ahead + seq![
        ModelView { id: "openai/gpt-4o"@, label: "GPT-4o"@ },
        ModelView { id: "google/gemini-2.5-pro"@, label: "Gemini 2.5 Pro"@ },
        ModelView { id: "mock/echo"@, label: "Mock (local test server)"@ },
    ]
}

/// The models offered where nothing is configured.
pub fn builtin_models(ahead: &Vec<ModelSpec>) -> (r: Vec<ModelSpec>)
    ensures
        model_views(r@) == usual_models(model_views(ahead@)),
{
    let mut r = copy_models(ahead);
    let ghost had = r@;
    r.push(make_model("openai/gpt-4o", "GPT-4o"));
    r.push(make_model("google/gemini-2.5-pro", "Gemini 2.5 Pro"));
    r.push(make_model("mock/echo", "Mock (local test server)"));
    assert(model_views(r@) =~= usual_models(model_views(had)));
    r
}

fn make_model(id: &str, label: &str) -> (r: ModelSpec)
    ensures
        r@ == (ModelView { id: id@, label: label@ }),
{
    ModelSpec { id: id.to_owned(), label: label.to_owned() }
}

/// A copy of a list of models.
fn copy_models(items: &Vec<ModelSpec>) -> (r: Vec<ModelSpec>)
    ensures
        model_views(r@) == model_views(items@),
{
    let ghost all = model_views(items@);
    let mut out: Vec<ModelSpec> = Vec::new();
    assert(model_views(out@) =~= all.take(0));
    for i in 0..items.len()
        invariant
            all == model_views(items@),
            model_views(out@) == all.take(i as int),
    {
        let ghost had = out@;
        let model = make_model(items[i].id.as_str(), items[i].label.as_str());
        out.push(model);
        proof {
            assert(model@ == all[i as int]);
            assert(model_views(out@) =~= model_views(had).push(model@));
            assert(all.take(i + 1) =~= all.take(i as int).push(all[i as int]));
        }
    }
    assert(all.take(items@.len() as int) =~= all);
    out
}

/// One entry of the model list in the environment: `id=Label`, or an id that
/// is its own label.
pub open spec fn model_entry(entry: Seq<char>) -> ModelView {
    match cut(entry, '=') {
        Some((id, label)) => ModelView { id: trimmed(id), label: trimmed(label) },
        None => ModelView { id: entry, label: entry },
    }
}

/// The models a list of entries names, blank entries passed over.
pub open spec fn model_entries(items: Seq<Seq<char>>) -> Seq<ModelView>
    decreases items.len(),
{
    if items.len() == 0 {
        Seq::empty()
    } else if trimmed(items.last()).len() == 0 {
        model_entries(items.drop_last())
    } else {
        model_entries(items.drop_last()).push(model_entry(trimmed(items.last())))
    }
}

/// The models a comma-separated list names, or the usual ones where it names
/// none.
pub open spec fn models_from_env(raw: Seq<char>, usual: Seq<ModelView>) -> Seq<ModelView> {
    let named = model_entries(pieces(raw, ','));
    if named.len() == 0 {
        usual
    } else {
        named
    }
}

/// Reads a comma-separated list of `id=Label` pairs; a bare id uses itself as
/// the label.
pub fn parse_models_env(raw: &str, usual: &Vec<ModelSpec>) -> (r: Vec<ModelSpec>)
    ensures
        model_views(r@) == models_from_env(raw@, model_views(usual@)),
{
    let items = text::split(raw, ',');
    let ghost all = texts(items@);
    let mut out: Vec<ModelSpec> = Vec::new();
    assert(all.take(0) =~= Seq::<Seq<char>>::empty());
    assert(model_views(out@) =~= Seq::<ModelView>::empty());
    for i in 0..items.len()
        invariant
            all == texts(items@),
            model_views(out@) == model_entries(all.take(i as int)),
    {
        let ghost had = out@;
        proof {
            assert(all.take(i + 1).drop_last() =~= all.take(i as int));
            assert(all.take(i + 1).last() == items@[i as int]@);
        }
        let entry = text::trim(items[i].as_str());
        if !text::is_empty(entry.as_str()) {
            let model = match text::split_once(entry.as_str(), '=') {
                Some((id, label)) => make_model(
                    text::trim(id.as_str()).as_str(),
                    text::trim(label.as_str()).as_str(),
                ),
                None => make_model(entry.as_str(), entry.as_str()),
            };
            out.push(model);
            assert(model_views(out@) =~= model_views(had).push(model@));
        }
    }
    assert(all.take(items@.len() as int) =~= all);
    if out.len() == 0 {
        assert(model_views(out@).len() == 0);
        copy_models(usual)
    } else {
        assert(model_views(out@).len() > 0);
        out
    }
}

/// A model of the file, with a label.
pub open spec fn file_model(m: Model) -> ModelView {
    ModelView { id: m.id@, label: label_or(m.label@, m.id@) }
}

/// The models on offer: those of the environment, or of the file, or the usual
/// ones.
pub open spec fn chosen_models(
    env: Map<Seq<char>, String>,
    models: Seq<Model>,
    usual: Seq<ModelView>,
) -> Seq<ModelView> {
    match env_text(env, "GENESIS_MODELS"@) {
        Some(raw) => models_from_env(raw, usual),
        None => if models.len() > 0 {
            models.map_values(|m: Model| file_model(m))
        } else {
            usual
        },
    }
}

fn choose_models(env: &Table<String>, models: &Vec<Model>, usual: &Vec<ModelSpec>) -> (r: Vec<
    ModelSpec,
>)
    ensures
        model_views(r@) == chosen_models(env@, models@, model_views(usual@)),
{
    if let Some(raw) = env_string(env, "GENESIS_MODELS") {
        return parse_models_env(raw.as_str(), usual);
    }
    if models.len() == 0 {
        return copy_models(usual);
    }
    let ghost all = models@.map_values(|m: Model| file_model(m));
    let mut out: Vec<ModelSpec> = Vec::new();
    assert(model_views(out@) =~= all.take(0));
    for i in 0..models.len()
        invariant
            all == models@.map_values(|m: Model| file_model(m)),
            model_views(out@) == all.take(i as int),
    {
        let ghost had = out@;
        let label = labelled(models[i].label.as_str(), models[i].id.as_str());
        let model = make_model(models[i].id.as_str(), label.as_str());
        out.push(model);
        assert(model_views(out@) =~= model_views(had).push(model@));
        assert(all.take(i + 1) =~= all.take(i as int).push(all[i as int]));
    }
    assert(all.take(models@.len() as int) =~= all);
    out
}

/// The modes offered where nothing is configured.
pub open spec fn usual_modes() -> Seq<ModeView> {
    seq![
        ModeView {
            id: "agent"@,
            label: "Agent"@,
            description: "Full access. Runs tools and can modify the running system."@,
            read_only: false,
        },
        ModeView {
            id: "plan"@,
            label: "Plan"@,
            description: "Reads and reasons, but makes no changes. Tools that would modify anything are withheld."@,
            read_only: true,
        },
    ]
}

/// The modes offered where nothing is configured.
pub fn builtin_modes() -> (r: Vec<ModeSpec>)
    ensures
        mode_views(r@) == usual_modes(),
{
    let r = vec![
        ModeSpec {
            id: "agent".to_owned(),
            label: "Agent".to_owned(),
            description: "Full access. Runs tools and can modify the running system.".to_owned(),
            read_only: false,
        },
        ModeSpec {
            id: "plan".to_owned(),
            label: "Plan".to_owned(),
            description:
                "Reads and reasons, but makes no changes. Tools that would modify anything are withheld.".to_owned(),
            read_only: true,
        },
    ];
    assert(mode_views(r@) =~= usual_modes());
    r
}

/// A mode of the file, with a label.
pub open spec fn file_mode(m: Mode) -> ModeView {
    ModeView {
        id: m.id@,
        label: label_or(m.label@, m.id@),
        description: m.description@,
        read_only: m.read_only,
    }
}

/// The modes on offer: those of the file, or the usual ones.
pub open spec fn chosen_modes(modes: Seq<Mode>) -> Seq<ModeView> {
    if modes.len() == 0 {
        usual_modes()
    } else {
        modes.map_values(|m: Mode| file_mode(m))
    }
}

fn choose_modes(modes: &Vec<Mode>) -> (r: Vec<ModeSpec>)
    ensures
        mode_views(r@) == chosen_modes(modes@),
{
    if modes.len() == 0 {
        return builtin_modes();
    }
    let ghost all = modes@.map_values(|m: Mode| file_mode(m));
    let mut out: Vec<ModeSpec> = Vec::new();
    assert(mode_views(out@) =~= all.take(0));
    for i in 0..modes.len()
        invariant
            all == modes@.map_values(|m: Mode| file_mode(m)),
            mode_views(out@) == all.take(i as int),
    {
        let ghost had = out@;
        let mode = ModeSpec {
            id: modes[i].id.clone(),
            label: labelled(modes[i].label.as_str(), modes[i].id.as_str()),
            description: modes[i].description.clone(),
            read_only: modes[i].read_only,
        };
        out.push(mode);
        assert(mode_views(out@) =~= mode_views(had).push(mode@));
        assert(all.take(i + 1) =~= all.take(i as int).push(all[i as int]));
    }
    assert(all.take(modes@.len() as int) =~= all);
    out
}

fn ids_of(modes: &Vec<ModeSpec>) -> (r: Vec<String>)
    ensures
        texts(r@) == mode_ids(mode_views(modes@)),
{
    let ghost all = mode_ids(mode_views(modes@));
    let mut out: Vec<String> = Vec::new();
    for i in 0..modes.len()
        invariant
            all == mode_ids(mode_views(modes@)),
            texts(out@) == all.take(i as int),
    {
        let ghost had = out@;
        let id = modes[i].id.clone();
        out.push(id);
        proof {
            text::lemma_texts_push(had, id);
            assert(mode_views(modes@)[i as int] == modes@[i as int]@);
            assert(all.take(i + 1) =~= all.take(i as int).push(all[i as int]));
        }
    }
    assert(all.take(modes@.len() as int) =~= all);
    out
}

// --- the prompt -------------------------------------------------------------

/// What the agent is told where nothing is configured.
pub const DEFAULT_SYSTEM_PROMPT: &'static str = "You are Genesis, an agent running inside a self-modifying WebAssembly harness.

You are unusual: your own agentic loop, your tools, and the chat interface you \
are speaking through are all WebAssembly components that you can rewrite while \
you run. Edits are compiled immediately and the compiler's verdict comes back \
in the same tool result, so iterate until it builds. Every component is \
versioned and can be rolled back, so a broken build is recoverable, never fatal.

Be direct and concise. Use tools when they help; explain what you changed when \
you modify yourself.";

/// Where the prompt comes from.
#[derive(Debug, PartialEq, Eq)]
pub enum PromptSource {
    /// It is known.
    Text(String),
    /// It has to be read from this file.
    File(String),
}

/// Where the prompt comes from, as text.
pub enum PromptSourceView {
    /// It is known.
    Text(Seq<char>),
    /// It has to be read from this file.
    File(Seq<char>),
}

impl View for PromptSource {
    type V = PromptSourceView;

    open spec fn view(&self) -> PromptSourceView {
        match self {
            PromptSource::Text(s) => PromptSourceView::Text(s@),
            PromptSource::File(p) => PromptSourceView::File(p@),
        }
    }
}

/// Where the prompt comes from. The environment wins; then a prompt file wins
/// over an inline prompt; none of them means the built-in.
pub open spec fn prompt_choice(
    env: Map<Seq<char>, String>,
    root: Seq<char>,
    agent: file::Agent,
) -> PromptSourceView {
    match env_text(env, "GENESIS_SYSTEM_PROMPT"@) {
        Some(p) => PromptSourceView::Text(p),
        None => if agent.system_prompt_file@.len() > 0 {
            PromptSourceView::File(resolved(root, agent.system_prompt_file@))
        } else if agent.system_prompt@.len() > 0 {
            PromptSourceView::Text(agent.system_prompt@)
        } else {
            PromptSourceView::Text(DEFAULT_SYSTEM_PROMPT@)
        },
    }
}

/// Where the prompt comes from.
pub fn prompt_source(env: &Table<String>, root: &str, agent: &file::Agent) -> (r: PromptSource)
    ensures
        r@ == prompt_choice(env@, root@, *agent),
{
    match env_string(env, "GENESIS_SYSTEM_PROMPT") {
        Some(p) => PromptSource::Text(p),
        None => if !text::is_empty(agent.system_prompt_file.as_str()) {
            PromptSource::File(resolve(root, agent.system_prompt_file.as_str()))
        } else if !text::is_empty(agent.system_prompt.as_str()) {
            PromptSource::Text(agent.system_prompt.clone())
        } else {
            PromptSource::Text(DEFAULT_SYSTEM_PROMPT.to_owned())
        },
    }
}

/// The address to listen on.
pub open spec fn chosen_bind(env: Map<Seq<char>, String>, file: File) -> Seq<char> {
    env_or(env, "GENESIS_BIND"@, file.server.bind@)
}

/// The address to listen on, as configured.
pub fn choose_bind(env: &Table<String>, file: &File) -> (r: String)
    ensures
        r@ == chosen_bind(env@, *file),
{
    env_string_or(env, "GENESIS_BIND", file.server.bind.clone())
}

/// The shell that suits a platform.
pub open spec fn usual_shell(windows: bool) -> Seq<char> {
    if windows {
        "powershell"@
    } else {
        "sh"@
    }
}

/// PowerShell on Windows, a POSIX shell elsewhere.
pub fn default_shell(windows: bool) -> (r: String)
    ensures
        r@ == usual_shell(windows),
{
    if windows {
        "powershell".to_owned()
    } else {
        "sh".to_owned()
    }
}

/// The arguments of the shell that suits a platform: no profile and no banner,
/// a predictable, quiet session.
pub open spec fn usual_shell_args(windows: bool) -> Seq<Seq<char>> {
    if windows {
        seq!["-NoLogo"@, "-NoProfile"@, "-NonInteractive"@, "-Command"@, "-"@]
    } else {
        seq!["-s"@]
    }
}

/// The arguments of the shell that suits a platform.
pub fn default_shell_args(windows: bool) -> (r: Vec<String>)
    ensures
        texts(r@) == usual_shell_args(windows),
{
    let r = if windows {
        vec![
            "-NoLogo".to_owned(),
            "-NoProfile".to_owned(),
            "-NonInteractive".to_owned(),
            "-Command".to_owned(),
            "-".to_owned(),
        ]
    } else {
        vec!["-s".to_owned()]
    };
    assert(texts(r@) =~= usual_shell_args(windows));
    r
}

// --- putting it together ----------------------------------------------------

/// What the file's paths come to.
pub open spec fn paths_from(root: Seq<char>, p: file::Paths, r: Paths) -> bool {
    &&& r.data@ == resolved(root, p.data@)
    &&& r.artifacts@ == resolved(root, p.artifacts@)
    &&& r.skills@ == resolved(root, p.skills@)
    &&& r.templates@ == resolved(root, p.templates@)
    &&& r.wit@ == resolved(root, p.wit@)
    &&& r.agent@ == resolved(root, p.agent@)
    &&& r.gateways@ == resolved(root, p.gateways@)
    &&& r.gateway_prefix@ == p.gateway_prefix@
    &&& r.tools@ == resolved(root, p.tools@)
    &&& r.tool_prefix@ == p.tool_prefix@
}

fn make_paths(root: &str, p: &file::Paths) -> (r: Paths)
    ensures
        paths_from(root@, *p, r),
{
    Paths {
        data: resolve(root, p.data.as_str()),
        artifacts: resolve(root, p.artifacts.as_str()),
        skills: resolve(root, p.skills.as_str()),
        templates: resolve(root, p.templates.as_str()),
        wit: resolve(root, p.wit.as_str()),
        agent: resolve(root, p.agent.as_str()),
        gateways: resolve(root, p.gateways.as_str()),
        gateway_prefix: p.gateway_prefix.clone(),
        tools: resolve(root, p.tools.as_str()),
        tool_prefix: p.tool_prefix.clone(),
    }
}

/// The larger of a number and one.
pub open spec fn at_least_one(n: nat) -> nat {
    if n == 0 {
        1
    } else {
        n
    }
}

/// What the file's cache settings come to.
pub open spec fn cache_from(
    env: Map<Seq<char>, String>,
    c: file::Cache,
    r: CacheSettings,
) -> bool {
    &&& r.enabled == env_flag(env, "GENESIS_CACHE"@, c.enabled)
    &&& r.ttl@ == env_or(env, "GENESIS_CACHE_TTL"@, c.ttl@)
    &&& r.anchor_stride == at_least_one(c.anchor_stride as nat)
    &&& texts(r.explicit_vendors@) == texts(c.explicit_vendors@)
}

fn make_cache(env: &Table<String>, c: &file::Cache) -> (r: CacheSettings)
    ensures
        cache_from(env@, *c, r),
{
    CacheSettings {
        enabled: env_bool(env, "GENESIS_CACHE", c.enabled),
        ttl: env_string_or(env, "GENESIS_CACHE_TTL", c.ttl.clone()),
        anchor_stride: if c.anchor_stride == 0 {
            1
        } else {
            c.anchor_stride
        },
        explicit_vendors: text::copies(&c.explicit_vendors),
    }
}

/// What the file's build settings come to.
pub open spec fn build_from(
    root: Seq<char>,
    env: Map<Seq<char>, String>,
    b: file::Build,
    r: BuildSettings,
) -> bool {
    &&& r.command@ == env_or(env, "GENESIS_BUILD_COMMAND"@, b.command@)
    &&& r.target@ == env_or(env, "GENESIS_BUILD_TARGET"@, b.target@)
    &&& r.profile@ == env_or(env, "GENESIS_BUILD_PROFILE"@, b.profile@)
    &&& r.target_dir@ == resolved(root, b.target_dir@)
    &&& r.locked == b.locked
    &&& texts(r.extra_args@) == texts(b.extra_args@)
    &&& r.timeout == span_of_secs(
        at_least_one(
            env_number(
                env,
                "GENESIS_BUILD_TIMEOUT_SECS"@,
                u64::MAX as nat,
                b.timeout_secs as nat,
            ),
        ) as u64,
    )
    &&& texts(r.allowed_crates@) == texts(b.allowed_crates@)
}

fn make_build(root: &str, env: &Table<String>, b: &file::Build) -> (r: BuildSettings)
    ensures
        build_from(root@, env@, *b, r),
{
    let secs: u64 = env_u64(env, "GENESIS_BUILD_TIMEOUT_SECS", u64::MAX, b.timeout_secs);
    BuildSettings {
        command: env_string_or(env, "GENESIS_BUILD_COMMAND", b.command.clone()),
        target: env_string_or(env, "GENESIS_BUILD_TARGET", b.target.clone()),
        profile: env_string_or(env, "GENESIS_BUILD_PROFILE", b.profile.clone()),
        target_dir: resolve(root, b.target_dir.as_str()),
        locked: b.locked,
        extra_args: text::copies(&b.extra_args),
        timeout: Span::from_secs(
            if secs == 0 {
                1
            } else {
                secs
            },
        ),
        allowed_crates: text::copies(&b.allowed_crates),
    }
}

/// What the file's sandbox settings come to.
pub open spec fn wasi_from(
    root: Seq<char>,
    env: Map<Seq<char>, String>,
    w: file::Wasi,
    r: WasiSettings,
) -> bool {
    &&& r.network == env_flag(env, "GENESIS_WASI_NETWORK"@, w.network)
    &&& r.dns == env_flag(env, "GENESIS_WASI_DNS"@, w.dns)
    &&& r.env == env_flag(env, "GENESIS_WASI_ENV"@, w.env)
    &&& r.stdio == env_flag(env, "GENESIS_WASI_STDIO"@, w.stdio)
    &&& texts(r.dirs@) == resolved_all(root, texts(w.dirs@))
}

fn make_wasi(root: &str, env: &Table<String>, w: &file::Wasi) -> (r: WasiSettings)
    ensures
        wasi_from(root@, env@, *w, r),
{
    WasiSettings {
        network: env_bool(env, "GENESIS_WASI_NETWORK", w.network),
        dns: env_bool(env, "GENESIS_WASI_DNS", w.dns),
        env: env_bool(env, "GENESIS_WASI_ENV", w.env),
        stdio: env_bool(env, "GENESIS_WASI_STDIO", w.stdio),
        dirs: resolve_all(root, &w.dirs),
    }
}

/// What the file's watchdog settings come to.
pub open spec fn watchdog_from(w: file::Watchdog, r: WatchdogSettings) -> bool {
    &&& r.failure_window == span_of_secs(w.failure_window_secs)
    &&& r.failure_threshold == at_least_one(w.failure_threshold as nat)
    &&& r.probe_interval == span_of_secs(at_least_one(w.probe_interval_secs as nat) as u64)
    &&& r.watch_suppression == span_of_secs(w.watch_suppression_secs)
    &&& r.debounce == span_of_millis(w.debounce_ms)
}

fn make_watchdog(w: &file::Watchdog) -> (r: WatchdogSettings)
    ensures
        watchdog_from(*w, r),
{
    WatchdogSettings {
        failure_window: Span::from_secs(w.failure_window_secs),
        failure_threshold: if w.failure_threshold == 0 {
            1
        } else {
            w.failure_threshold
        },
        probe_interval: Span::from_secs(
            if w.probe_interval_secs == 0 {
                1
            } else {
                w.probe_interval_secs
            },
        ),
        watch_suppression: Span::from_secs(w.watch_suppression_secs),
        debounce: Span::from_millis(w.debounce_ms),
    }
}

/// What the file's filesystem settings come to.
pub open spec fn filesystem_from(
    root: Seq<char>,
    env: Map<Seq<char>, String>,
    f: file::Filesystem,
    r: FilesystemSettings,
) -> bool {
    &&& r.enabled == env_flag(env, "GENESIS_FILESYSTEM"@, f.enabled)
    &&& texts(r.roots@) == if f.roots@.len() == 0 {
        seq![root]
    } else {
        resolved_all(root, texts(f.roots@))
    }
    &&& r.max_read_bytes == f.max_read_bytes
    &&& texts(r.protected@) == texts(f.protected@)
    &&& r.allow_delete == f.allow_delete
}

fn make_filesystem(root: &str, env: &Table<String>, f: &file::Filesystem) -> (r:
    FilesystemSettings)
    ensures
        filesystem_from(root@, env@, *f, r),
{
    let roots = if f.roots.len() == 0 {
        let only = vec![root.to_owned()];
        assert(texts(only@) =~= seq![root@]);
        only
    } else {
        resolve_all(root, &f.roots)
    };
    FilesystemSettings {
        enabled: env_bool(env, "GENESIS_FILESYSTEM", f.enabled),
        roots,
        max_read_bytes: f.max_read_bytes,
        protected: text::copies(&f.protected),
        allow_delete: f.allow_delete,
    }
}

/// What the file's terminal settings come to.
pub open spec fn terminal_from(
    env: Map<Seq<char>, String>,
    windows: bool,
    t: file::Terminal,
    r: TerminalSettings,
) -> bool {
    &&& r.enabled == env_flag(env, "GENESIS_TERMINAL"@, t.enabled)
    &&& r.shell@ == if t.shell@.len() == 0 {
        usual_shell(windows)
    } else {
        t.shell@
    }
    &&& texts(r.shell_args@) == if t.shell_args@.len() == 0 {
        usual_shell_args(windows)
    } else {
        texts(t.shell_args@)
    }
    &&& r.max_sessions == at_least_one(t.max_sessions as nat)
    &&& r.default_timeout == span_of_millis(t.default_timeout_ms)
    &&& r.max_output_bytes == t.max_output_bytes
    &&& r.idle_timeout == span_of_secs(t.idle_timeout_secs)
}

fn make_terminal(env: &Table<String>, windows: bool, t: &file::Terminal) -> (r: TerminalSettings)
    ensures
        terminal_from(env@, windows, *t, r),
{
    TerminalSettings {
        enabled: env_bool(env, "GENESIS_TERMINAL", t.enabled),
        shell: if text::is_empty(t.shell.as_str()) {
            default_shell(windows)
        } else {
            t.shell.clone()
        },
        shell_args: if t.shell_args.len() == 0 {
            default_shell_args(windows)
        } else {
            text::copies(&t.shell_args)
        },
        max_sessions: if t.max_sessions == 0 {
            1
        } else {
            t.max_sessions
        },
        default_timeout: Span::from_millis(t.default_timeout_ms),
        max_output_bytes: t.max_output_bytes,
        idle_timeout: Span::from_secs(t.idle_timeout_secs),
    }
}

/// Settings that concern the provider and the agent's loop.
pub open spec fn loop_from(
    env: Map<Seq<char>, String>,
    file: File,
    offer: Catalogue,
    c: Config,
) -> bool {
    &&& c.primary_gateway@ == env_or(env, "GENESIS_GATEWAY"@, file.server.primary_gateway@)
    &&& c.admin_enabled == env_flag(env, "GENESIS_ADMIN"@, file.server.admin_enabled)
    &&& secret_of(c.openrouter_api_key) == key_text(
        env_text(env, "OPENROUTER_API_KEY"@),
        file.llm.api_key@,
    )
    &&& c.openrouter_base@ == env_or(env, "OPENROUTER_BASE_URL"@, file.llm.base_url@)
    &&& c.model@ == env_or(
        env,
        "GENESIS_MODEL"@,
        match file.llm.model {
            Some(m) => m@,
            None => offer.model@,
        },
    )
    &&& c.request_timeout == env_secs(
        env,
        "GENESIS_REQUEST_TIMEOUT_SECS"@,
        file.llm.request_timeout_secs,
    )
    &&& c.max_retries == env_number(
        env,
        "GENESIS_MAX_RETRIES"@,
        u32::MAX as nat,
        file.llm.max_retries as nat,
    )
    &&& model_views(c.models@) == chosen_models(
        env,
        file.models@,
        usual_models(model_views(offer.models@)),
    )
    &&& c.max_iterations == env_number(
        env,
        "GENESIS_MAX_ITERATIONS"@,
        u32::MAX as nat,
        file.agent.max_iterations as nat,
    )
    &&& mode_views(c.modes@) == chosen_modes(file.modes@)
    &&& c.default_mode@ == env_or(env, "GENESIS_DEFAULT_MODE"@, file.agent.default_mode@)
}

/// A number of seconds from the environment, or what was configured.
pub open spec fn env_secs(env: Map<Seq<char>, String>, key: Seq<char>, current: u64) -> Span {
    span_of_secs(env_number(env, key, u64::MAX as nat, current as nat) as u64)
}

fn env_span(env: &Table<String>, key: &str, current: u64) -> (r: Span)
    ensures
        r == env_secs(env@, key@, current),
{
    Span::from_secs(env_u64(env, key, u64::MAX, current))
}

/// A number of megabytes from the environment, or what was configured, in
/// bytes.
pub open spec fn env_megabytes(
    env: Map<Seq<char>, String>,
    key: Seq<char>,
    current: usize,
) -> usize {
    (env_number(env, key, usize::MAX as nat, current as nat) as usize) << 20
}

fn env_bytes(env: &Table<String>, key: &str, current: usize) -> (r: usize)
    ensures
        r == env_megabytes(env@, key@, current),
{
    let mb: usize = env_usize(env, key, current);
    mb << 20
}

/// Settings that concern how long things run and how much they use.
pub open spec fn ceilings_from(env: Map<Seq<char>, String>, file: File, c: Config) -> bool {
    &&& c.turn_budget == env_secs(env, "GENESIS_TURN_BUDGET_SECS"@, file.budgets.turn_secs)
    &&& c.wasm_slice == env_secs(env, "GENESIS_WASM_SLICE_SECS"@, file.budgets.wasm_slice_secs)
    &&& c.tool_budget == env_secs(env, "GENESIS_TOOL_BUDGET_SECS"@, file.budgets.tool_secs)
    &&& c.probe_budget == env_secs(env, "GENESIS_PROBE_BUDGET_SECS"@, file.budgets.probe_secs)
    &&& c.agent_memory_bytes == env_megabytes(
        env,
        "GENESIS_AGENT_MEM_MB"@,
        file.limits.agent_memory_mb,
    )
    &&& c.tool_memory_bytes == env_megabytes(
        env,
        "GENESIS_TOOL_MEM_MB"@,
        file.limits.tool_memory_mb,
    )
    &&& c.gateway_memory_bytes == env_megabytes(
        env,
        "GENESIS_GATEWAY_MEM_MB"@,
        file.limits.gateway_memory_mb,
    )
    &&& c.max_tool_output_bytes == env_number(
        env,
        "GENESIS_MAX_TOOL_OUTPUT"@,
        usize::MAX as nat,
        file.limits.max_tool_output_bytes as nat,
    )
    &&& c.max_attachment_bytes == env_number(
        env,
        "GENESIS_MAX_ATTACHMENT_BYTES"@,
        usize::MAX as nat,
        file.limits.max_attachment_bytes as nat,
    )
    &&& c.max_attachments == env_number(
        env,
        "GENESIS_MAX_ATTACHMENTS"@,
        usize::MAX as nat,
        file.limits.max_attachments as nat,
    )
}

/// Settings of the parts that stand on their own.
pub open spec fn sections_from(
    root: Seq<char>,
    env: Map<Seq<char>, String>,
    windows: bool,
    file: File,
    c: Config,
) -> bool {
    &&& paths_from(root, file.paths, c.paths)
    &&& cache_from(env, file.cache, c.cache)
    &&& build_from(root, env, file.build, c.build)
    &&& wasi_from(root, env, file.wasi, c.wasi)
    &&& watchdog_from(file.watchdog, c.watchdog)
    &&& c.devkit.enabled == env_flag(env, "GENESIS_DEVKIT"@, file.devkit.enabled)
    &&& texts(c.devkit.protected_files@) == texts(file.devkit.protected_files@)
    &&& texts(c.devkit.protected_dirs@) == texts(file.devkit.protected_dirs@)
    &&& filesystem_from(root, env, file.filesystem, c.filesystem)
    &&& terminal_from(env, windows, file.terminal, c.terminal)
    &&& c.control.allow_restart == env_flag(
        env,
        "GENESIS_ALLOW_RESTART"@,
        file.control.allow_restart,
    )
    &&& c.control.min_uptime == span_of_secs(file.control.min_uptime_secs)
    &&& c.control.restart_delay == span_of_millis(file.control.restart_delay_ms)
    &&& c.sandbox_available == env_flag(env, "GENESIS_SANDBOX"@, file.sandbox.enabled)
    &&& c.tools@ == file.tools@
}

/// The prompt, once a prompt file has been read.
pub open spec fn prompt_from(
    source: PromptSourceView,
    read: Result<Seq<char>, Seq<char>>,
) -> Result<Seq<char>, Seq<char>> {
    match source {
        PromptSourceView::Text(s) => Ok(s),
        PromptSourceView::File(path) => match read {
            Ok(s) => Ok(s),
            Err(e) => Err("reading the system prompt at "@ + path + ": "@ + e),
        },
    }
}

/// Why a configuration does not hold together, if it does not: the address is
/// no address, the prompt file cannot be read, or the default mode is none of
/// the modes.
pub open spec fn config_fault(
    root: Seq<char>,
    file: File,
    env: Map<Seq<char>, String>,
    bind_fault: Option<Seq<char>>,
    prompt: Result<Seq<char>, Seq<char>>,
) -> Option<Seq<char>> {
    let modes = chosen_modes(file.modes@);
    let mode = env_or(env, "GENESIS_DEFAULT_MODE"@, file.agent.default_mode@);
    if bind_fault is Some {
        Some(
            "`"@ + chosen_bind(env, file) + "` is not a valid host:port: "@ + bind_fault->0,
        )
    } else if prompt_from(prompt_choice(env, root, file.agent), prompt) is Err {
        Some(prompt_from(prompt_choice(env, root, file.agent), prompt)->Err_0)
    } else if !mode_ids(modes).contains(mode) {
        Some(
            "default_mode `"@ + mode + "` is not one of the configured modes ("@ + joined(
                mode_ids(modes),
                ", "@,
            ) + ")"@,
        )
    } else {
        None
    }
}

impl Config {
    /// Puts a configuration together from the file and the environment.
    ///
    /// `bind_fault` says what is wrong with the configured address, if anything
    /// is; `prompt` is what reading the prompt file gave, where there is one.
    pub fn assemble(
        root: &str,
        config_path: &str,
        file: File,
        env: &Table<String>,
        offer: &Catalogue,
        windows: bool,
        bind_fault: Option<String>,
        prompt: Result<String, String>,
    ) -> (r: Result<Config, String>)
        ensures
            match r {
                Ok(c) => {
                    &&& config_fault(root@, file, env@, text_of(bind_fault), outcome_of(prompt)) is None
                    &&& c.root@ == root@
                    &&& c.config_path@ == config_path@
                    &&& c.bind_addr@ == chosen_bind(env@, file)
                    &&& Ok::<Seq<char>, Seq<char>>(c.system_prompt@) == prompt_from(
                        prompt_choice(env@, root@, file.agent),
                        outcome_of(prompt),
                    )
                    &&& loop_from(env@, file, *offer, c)
                    &&& ceilings_from(env@, file, c)
                    &&& sections_from(root@, env@, windows, file, c)
                },
                Err(e) => config_fault(root@, file, env@, text_of(bind_fault), outcome_of(prompt))
                    == Some(e@),
            },
    {
        let bind_addr = choose_bind(env, &file);
        if let Some(fault) = bind_fault {
            return Err(
                "`".to_owned().concat(bind_addr.as_str()).concat(
                    "` is not a valid host:port: ",
                ).concat(fault.as_str()),
            );
        }
        let system_prompt = match prompt_source(env, root, &file.agent) {
            PromptSource::Text(s) => s,
            PromptSource::File(path) => match prompt {
                Ok(s) => s,
                Err(e) => {
                    return Err(
                        "reading the system prompt at ".to_owned().concat(path.as_str()).concat(
                            ": ",
                        ).concat(e.as_str()),
                    );
                },
            },
        };
        let models = choose_models(env, &file.models, &builtin_models(&offer.models));
        let modes = choose_modes(&file.modes);
        let default_mode = env_string_or(
            env,
            "GENESIS_DEFAULT_MODE",
            file.agent.default_mode.clone(),
        );
        let ids = ids_of(&modes);
        if !text::listed(&ids, default_mode.as_str()) {
            return Err(
                "default_mode `".to_owned().concat(default_mode.as_str()).concat(
                    "` is not one of the configured modes (",
                ).concat(text::join(&ids, ", ").as_str()).concat(")"),
            );
        }
        let usual_model = match &file.llm.model {
            Some(m) => m.clone(),
            None => offer.model.clone(),
        };
        let c = Config {
            root: root.to_owned(),
            config_path: config_path.to_owned(),
            paths: make_paths(root, &file.paths),
            bind_addr,
            primary_gateway: env_string_or(
                env,
                "GENESIS_GATEWAY",
                file.server.primary_gateway.clone(),
            ),
            admin_enabled: env_bool(env, "GENESIS_ADMIN", file.server.admin_enabled),
            openrouter_api_key: resolve_api_key(
                env_string(env, "OPENROUTER_API_KEY"),
                file.llm.api_key.as_str(),
            ),
            openrouter_base: env_string_or(
                env,
                "OPENROUTER_BASE_URL",
                file.llm.base_url.clone(),
            ),
            model: env_string_or(env, "GENESIS_MODEL", usual_model),
            request_timeout: env_span(
                env,
                "GENESIS_REQUEST_TIMEOUT_SECS",
                file.llm.request_timeout_secs,
            ),
            max_retries: env_u32(env, "GENESIS_MAX_RETRIES", file.llm.max_retries),
            models,
            system_prompt,
            max_iterations: env_u32(env, "GENESIS_MAX_ITERATIONS", file.agent.max_iterations),
            modes,
            default_mode,
            turn_budget: env_span(env, "GENESIS_TURN_BUDGET_SECS", file.budgets.turn_secs),
            wasm_slice: env_span(env, "GENESIS_WASM_SLICE_SECS", file.budgets.wasm_slice_secs),
            tool_budget: env_span(env, "GENESIS_TOOL_BUDGET_SECS", file.budgets.tool_secs),
            probe_budget: env_span(env, "GENESIS_PROBE_BUDGET_SECS", file.budgets.probe_secs),
            agent_memory_bytes: env_bytes(
                env,
                "GENESIS_AGENT_MEM_MB",
                file.limits.agent_memory_mb,
            ),
            tool_memory_bytes: env_bytes(env, "GENESIS_TOOL_MEM_MB", file.limits.tool_memory_mb),
            gateway_memory_bytes: env_bytes(
                env,
                "GENESIS_GATEWAY_MEM_MB",
                file.limits.gateway_memory_mb,
            ),
            max_tool_output_bytes: env_usize(
                env,
                "GENESIS_MAX_TOOL_OUTPUT",
                file.limits.max_tool_output_bytes,
            ),
            max_attachment_bytes: env_usize(
                env,
                "GENESIS_MAX_ATTACHMENT_BYTES",
                file.limits.max_attachment_bytes,
            ),
            max_attachments: env_usize(
                env,
                "GENESIS_MAX_ATTACHMENTS",
                file.limits.max_attachments,
            ),
            cache: make_cache(env, &file.cache),
            build: make_build(root, env, &file.build),
            wasi: make_wasi(root, env, &file.wasi),
            watchdog: make_watchdog(&file.watchdog),
            devkit: DevkitSettings {
                enabled: env_bool(env, "GENESIS_DEVKIT", file.devkit.enabled),
                protected_files: text::copies(&file.devkit.protected_files),
                protected_dirs: text::copies(&file.devkit.protected_dirs),
            },
            filesystem: make_filesystem(root, env, &file.filesystem),
            terminal: make_terminal(env, windows, &file.terminal),
            control: ControlSettings {
                allow_restart: env_bool(
                    env,
                    "GENESIS_ALLOW_RESTART",
                    file.control.allow_restart,
                ),
                min_uptime: Span::from_secs(file.control.min_uptime_secs),
                restart_delay: Span::from_millis(file.control.restart_delay_ms),
            },
            sandbox_available: env_bool(env, "GENESIS_SANDBOX", file.sandbox.enabled),
            tools: file.tools,
        };
        Ok(c)
    }
}

// --- laws -------------------------------------------------------------------

/// The default mode of a configuration that holds together is one of its modes.
pub proof fn law_default_mode_is_offered(
    root: Seq<char>,
    file: File,
    env: Map<Seq<char>, String>,
    bind_fault: Option<Seq<char>>,
    prompt: Result<Seq<char>, Seq<char>>,
    offer: Catalogue,
    c: Config,
)
    requires
        config_fault(root, file, env, bind_fault, prompt) is None,
        loop_from(env, file, offer, c),
    ensures
        mode_ids(mode_views(c.modes@)).contains(c.default_mode@),
{
}

/// A configuration always offers some model.
pub proof fn law_some_model_is_offered(
    env: Map<Seq<char>, String>,
    file: File,
    offer: Catalogue,
    c: Config,
)
    requires
        loop_from(env, file, offer, c),
    ensures
        c.models@.len() > 0,
{
    assert(model_views(c.models@).len() == c.models@.len());
}

/// With an empty file and no environment, the configuration holds together:
/// Genesis runs with no configuration at all.
pub proof fn law_an_empty_file_is_enough(root: Seq<char>, file: File)
    requires
        file.usual(),
    ensures
        config_fault(
            root,
            file,
            Map::<Seq<char>, String>::empty(),
            None,
            Ok::<Seq<char>, Seq<char>>(Seq::empty()),
        ) is None,
{
    let ids = mode_ids(usual_modes());
    assert(ids[0] == "agent"@);
    assert(ids.contains("agent"@));
    assert(file.agent.system_prompt_file@ == ""@);
    reveal_strlit("");
}

/// A variable in the environment wins over the file.
pub proof fn law_environment_wins(env: Map<Seq<char>, String>, key: Seq<char>, current: Seq<char>)
    requires
        env.contains_key(key),
        trimmed(env[key]@).len() > 0,
    ensures
        env_or(env, key, current) == env[key]@,
{
}

/// What is printed of a secret says nothing about it but whether it is empty.
pub proof fn law_secrets_print_alike(a: Seq<char>, b: Seq<char>)
    requires
        (a.len() == 0) == (b.len() == 0),
    ensures
        secret_text(a) == secret_text(b),
{
}

// --- every setting has its own name ------------------------------------------

/// Whether the environment sets a variable to something other than white space.
pub open spec fn is_set(env: Map<Seq<char>, String>, key: Seq<char>) -> bool {
    env.contains_key(key) && (exists|k: int|
        0 <= k < env[key]@.len() && !text::is_white(#[trigger] env[key]@[k]))
}

/// Whether a text is what a variable says, or else what the file says.
pub open spec fn worded(
    env: Map<Seq<char>, String>,
    key: Seq<char>,
    file: Seq<char>,
    got: Seq<char>,
) -> bool {
    if is_set(env, key) {
        got == env[key]@
    } else {
        got == file
    }
}

/// Whether a switch stands as a variable says, or else as the file says.
pub open spec fn switched(
    env: Map<Seq<char>, String>,
    key: Seq<char>,
    file: bool,
    got: bool,
) -> bool {
    if is_set(env, key) && env[key]@ == "true"@ {
        got
    } else if is_set(env, key) && env[key]@ == "false"@ {
        !got
    } else {
        got == file
    }
}

/// Whether a number is the one that a variable spells, where it spells one that fits,
/// or else the file's.
pub open spec fn counted(
    env: Map<Seq<char>, String>,
    key: Seq<char>,
    max: nat,
    file: nat,
    got: nat,
) -> bool {
    &&& forall|n: nat|
        is_set(env, key) && env[key]@ == #[trigger] decimal(n) && n <= max ==> got == n
    &&& forall|n: nat|
        is_set(env, key) && env[key]@ == #[trigger] decimal(n) && n > max ==> got == file
    &&& !is_set(env, key) ==> got == file
}

proof fn lemma_is_set(env: Map<Seq<char>, String>, key: Seq<char>)
    ensures
        is_set(env, key) == (env_text(env, key) is Some),
{
    if env.contains_key(key) {
        let s = env[key]@;
        text::lemma_blank(s);
        if trimmed(s).len() > 0 {
            let k = choose|k: int| 0 <= k < s.len() && !text::is_white(s[k]);
            assert(!text::is_white(env[key]@[k]));
        }
    }
}

proof fn lemma_worded(env: Map<Seq<char>, String>, key: Seq<char>, file: Seq<char>)
    ensures
        worded(env, key, file, env_or(env, key, file)),
{
    lemma_is_set(env, key);
}

proof fn lemma_switched(env: Map<Seq<char>, String>, key: Seq<char>, file: bool)
    ensures
        switched(env, key, file, env_flag(env, key, file)),
{
    lemma_is_set(env, key);
    reveal_strlit("true");
    reveal_strlit("false");
    assert("true"@.len() == 4 && "false"@.len() == 5);
}

proof fn lemma_counted(env: Map<Seq<char>, String>, key: Seq<char>, max: nat, file: nat)
    ensures
        counted(env, key, max, file, env_number(env, key, max, file)),
{
    lemma_is_set(env, key);
    assert forall|n: nat| is_set(env, key) && env[key]@ == #[trigger] decimal(n) implies env_number(
        env,
        key,
        max,
        file,
    ) == if n <= max {
        n
    } else {
        file
    } by {
        text::law_numbers_read_back(n, max);
    }
}

/// Each of the agent's and the server's settings comes from the variable of its own
/// name, or else from the file's field of its own name.
pub proof fn law_the_loop_is_set_by_name(
    env: Map<Seq<char>, String>,
    file: File,
    offer: Catalogue,
    c: Config,
)
    requires
        loop_from(env, file, offer, c),
    ensures
        worded(env, "GENESIS_GATEWAY"@, file.server.primary_gateway@, c.primary_gateway@),
        switched(env, "GENESIS_ADMIN"@, file.server.admin_enabled, c.admin_enabled),
        worded(env, "OPENROUTER_BASE_URL"@, file.llm.base_url@, c.openrouter_base@),
        worded(env, "GENESIS_MODEL"@, or_usual(file.llm.model, offer.model@), c.model@),
        counted(
            env,
            "GENESIS_REQUEST_TIMEOUT_SECS"@,
            u64::MAX as nat,
            file.llm.request_timeout_secs as nat,
            c.request_timeout.secs as nat,
        ),
        c.request_timeout.nanos == 0,
        counted(
            env,
            "GENESIS_MAX_RETRIES"@,
            u32::MAX as nat,
            file.llm.max_retries as nat,
            c.max_retries as nat,
        ),
        counted(
            env,
            "GENESIS_MAX_ITERATIONS"@,
            u32::MAX as nat,
            file.agent.max_iterations as nat,
            c.max_iterations as nat,
        ),
        worded(env, "GENESIS_DEFAULT_MODE"@, file.agent.default_mode@, c.default_mode@),
{
    lemma_worded(env, "GENESIS_GATEWAY"@, file.server.primary_gateway@);
    lemma_switched(env, "GENESIS_ADMIN"@, file.server.admin_enabled);
    lemma_worded(env, "OPENROUTER_BASE_URL"@, file.llm.base_url@);
    lemma_worded(env, "GENESIS_MODEL"@, or_usual(file.llm.model, offer.model@));
    lemma_counted(
        env,
        "GENESIS_REQUEST_TIMEOUT_SECS"@,
        u64::MAX as nat,
        file.llm.request_timeout_secs as nat,
    );
    lemma_fits(
        env,
        "GENESIS_REQUEST_TIMEOUT_SECS"@,
        u64::MAX as nat,
        file.llm.request_timeout_secs as nat,
    );
    lemma_counted(env, "GENESIS_MAX_RETRIES"@, u32::MAX as nat, file.llm.max_retries as nat);
    lemma_counted(
        env,
        "GENESIS_MAX_ITERATIONS"@,
        u32::MAX as nat,
        file.agent.max_iterations as nat,
    );
    lemma_worded(env, "GENESIS_DEFAULT_MODE"@, file.agent.default_mode@);
}

/// The model that a file names, or else the usual one.
pub open spec fn or_usual(named: Option<String>, usual: Seq<char>) -> Seq<char> {
    match named {
        Some(m) => m@,
        None => usual,
    }
}

proof fn lemma_fits(env: Map<Seq<char>, String>, key: Seq<char>, max: nat, file: nat)
    requires
        file <= max,
    ensures
        env_number(env, key, max, file) <= max,
{
}

proof fn lemma_megabytes(env: Map<Seq<char>, String>, key: Seq<char>, file: usize)
    ensures
        ({
            let n = env_number(env, key, usize::MAX as nat, file as nat);
            n <= 4095 ==> env_megabytes(env, key, file) == n * 1_048_576
        }),
{
    let n = env_number(env, key, usize::MAX as nat, file as nat);
    if n <= 4095 {
        let m: usize = n as usize;
        assert(m <= 4095 ==> (m << 20) == m * 1_048_576) by (bit_vector);
    }
}

/// Whether a size is as many megabytes as a variable or else the file says, as long as
/// it is below four gigabytes.
pub open spec fn sized(
    env: Map<Seq<char>, String>,
    key: Seq<char>,
    file: usize,
    got: usize,
) -> bool {
    &&& forall|n: nat|
        is_set(env, key) && env[key]@ == #[trigger] decimal(n) && n <= 4095 ==> got == n
            * 1_048_576
    &&& !is_set(env, key) && file <= 4095 ==> got == file * 1_048_576
}

proof fn lemma_sized(env: Map<Seq<char>, String>, key: Seq<char>, file: usize)
    ensures
        sized(env, key, file, env_megabytes(env, key, file)),
{
    lemma_counted(env, key, usize::MAX as nat, file as nat);
    lemma_megabytes(env, key, file);
}

/// Whether a span is as many seconds as a variable or else the file says.
pub open spec fn timed(
    env: Map<Seq<char>, String>,
    key: Seq<char>,
    file: u64,
    got: Span,
) -> bool {
    got.nanos == 0 && counted(env, key, u64::MAX as nat, file as nat, got.secs as nat)
}

proof fn lemma_timed(env: Map<Seq<char>, String>, key: Seq<char>, file: u64)
    ensures
        timed(env, key, file, env_secs(env, key, file)),
{
    lemma_counted(env, key, u64::MAX as nat, file as nat);
    lemma_fits(env, key, u64::MAX as nat, file as nat);
}

/// Each budget and each ceiling comes from the variable of its own name, or else from
/// the file's field of its own name; budgets are seconds and memory is megabytes.
pub proof fn law_ceilings_are_set_by_name(env: Map<Seq<char>, String>, file: File, c: Config)
    requires
        ceilings_from(env, file, c),
    ensures
        timed(env, "GENESIS_TURN_BUDGET_SECS"@, file.budgets.turn_secs, c.turn_budget),
        timed(env, "GENESIS_WASM_SLICE_SECS"@, file.budgets.wasm_slice_secs, c.wasm_slice),
        timed(env, "GENESIS_TOOL_BUDGET_SECS"@, file.budgets.tool_secs, c.tool_budget),
        timed(env, "GENESIS_PROBE_BUDGET_SECS"@, file.budgets.probe_secs, c.probe_budget),
        sized(env, "GENESIS_AGENT_MEM_MB"@, file.limits.agent_memory_mb, c.agent_memory_bytes),
        sized(env, "GENESIS_TOOL_MEM_MB"@, file.limits.tool_memory_mb, c.tool_memory_bytes),
        sized(
            env,
            "GENESIS_GATEWAY_MEM_MB"@,
            file.limits.gateway_memory_mb,
            c.gateway_memory_bytes,
        ),
        counted(
            env,
            "GENESIS_MAX_TOOL_OUTPUT"@,
            usize::MAX as nat,
            file.limits.max_tool_output_bytes as nat,
            c.max_tool_output_bytes as nat,
        ),
        counted(
            env,
            "GENESIS_MAX_ATTACHMENT_BYTES"@,
            usize::MAX as nat,
            file.limits.max_attachment_bytes as nat,
            c.max_attachment_bytes as nat,
        ),
        counted(
            env,
            "GENESIS_MAX_ATTACHMENTS"@,
            usize::MAX as nat,
            file.limits.max_attachments as nat,
            c.max_attachments as nat,
        ),
{
    lemma_timed(env, "GENESIS_TURN_BUDGET_SECS"@, file.budgets.turn_secs);
    lemma_timed(env, "GENESIS_WASM_SLICE_SECS"@, file.budgets.wasm_slice_secs);
    lemma_timed(env, "GENESIS_TOOL_BUDGET_SECS"@, file.budgets.tool_secs);
    lemma_timed(env, "GENESIS_PROBE_BUDGET_SECS"@, file.budgets.probe_secs);
    lemma_sized(env, "GENESIS_AGENT_MEM_MB"@, file.limits.agent_memory_mb);
    lemma_sized(env, "GENESIS_TOOL_MEM_MB"@, file.limits.tool_memory_mb);
    lemma_sized(env, "GENESIS_GATEWAY_MEM_MB"@, file.limits.gateway_memory_mb);
    lemma_counted(
        env,
        "GENESIS_MAX_TOOL_OUTPUT"@,
        usize::MAX as nat,
        file.limits.max_tool_output_bytes as nat,
    );
    lemma_counted(
        env,
        "GENESIS_MAX_ATTACHMENT_BYTES"@,
        usize::MAX as nat,
        file.limits.max_attachment_bytes as nat,
    );
    lemma_counted(
        env,
        "GENESIS_MAX_ATTACHMENTS"@,
        usize::MAX as nat,
        file.limits.max_attachments as nat,
    );
}

/// Each switch comes from the variable of its own name, or else from the file's field
/// of its own name.
pub proof fn law_switches_are_set_by_name(
    root: Seq<char>,
    env: Map<Seq<char>, String>,
    windows: bool,
    file: File,
    c: Config,
)
    requires
        sections_from(root, env, windows, file, c),
    ensures
        switched(env, "GENESIS_CACHE"@, file.cache.enabled, c.cache.enabled),
        switched(env, "GENESIS_WASI_NETWORK"@, file.wasi.network, c.wasi.network),
        switched(env, "GENESIS_WASI_DNS"@, file.wasi.dns, c.wasi.dns),
        switched(env, "GENESIS_WASI_ENV"@, file.wasi.env, c.wasi.env),
        switched(env, "GENESIS_WASI_STDIO"@, file.wasi.stdio, c.wasi.stdio),
        switched(env, "GENESIS_DEVKIT"@, file.devkit.enabled, c.devkit.enabled),
        switched(env, "GENESIS_FILESYSTEM"@, file.filesystem.enabled, c.filesystem.enabled),
        switched(env, "GENESIS_TERMINAL"@, file.terminal.enabled, c.terminal.enabled),
        switched(env, "GENESIS_ALLOW_RESTART"@, file.control.allow_restart, c.control.allow_restart),
        switched(env, "GENESIS_SANDBOX"@, file.sandbox.enabled, c.sandbox_available),
        c.filesystem.allow_delete == file.filesystem.allow_delete,
        c.build.locked == file.build.locked,
{
    lemma_switched(env, "GENESIS_CACHE"@, file.cache.enabled);
    lemma_switched(env, "GENESIS_WASI_NETWORK"@, file.wasi.network);
    lemma_switched(env, "GENESIS_WASI_DNS"@, file.wasi.dns);
    lemma_switched(env, "GENESIS_WASI_ENV"@, file.wasi.env);
    lemma_switched(env, "GENESIS_WASI_STDIO"@, file.wasi.stdio);
    lemma_switched(env, "GENESIS_DEVKIT"@, file.devkit.enabled);
    lemma_switched(env, "GENESIS_FILESYSTEM"@, file.filesystem.enabled);
    lemma_switched(env, "GENESIS_TERMINAL"@, file.terminal.enabled);
    lemma_switched(env, "GENESIS_ALLOW_RESTART"@, file.control.allow_restart);
    lemma_switched(env, "GENESIS_SANDBOX"@, file.sandbox.enabled);
}

/// How guests are built, how failures are noticed, and how shells and restarts are
/// bounded, each from its own field: seconds as seconds, milliseconds as milliseconds,
/// and never less than one where none would stop everything.
pub proof fn law_sections_are_set_by_name(
    root: Seq<char>,
    env: Map<Seq<char>, String>,
    windows: bool,
    file: File,
    c: Config,
)
    requires
        sections_from(root, env, windows, file, c),
    ensures
        worded(env, "GENESIS_CACHE_TTL"@, file.cache.ttl@, c.cache.ttl@),
        c.cache.anchor_stride >= 1,
        file.cache.anchor_stride >= 1 ==> c.cache.anchor_stride == file.cache.anchor_stride,
        worded(env, "GENESIS_BUILD_COMMAND"@, file.build.command@, c.build.command@),
        worded(env, "GENESIS_BUILD_TARGET"@, file.build.target@, c.build.target@),
        worded(env, "GENESIS_BUILD_PROFILE"@, file.build.profile@, c.build.profile@),
        c.build.timeout.total() >= 1_000_000_000,
        file.build.timeout_secs >= 1 && !is_set(env, "GENESIS_BUILD_TIMEOUT_SECS"@)
            ==> c.build.timeout.total() == file.build.timeout_secs * 1_000_000_000,
        c.watchdog.failure_window.total() == file.watchdog.failure_window_secs * 1_000_000_000,
        c.watchdog.failure_threshold >= 1,
        file.watchdog.failure_threshold >= 1 ==> c.watchdog.failure_threshold
            == file.watchdog.failure_threshold,
        c.watchdog.probe_interval.total() >= 1_000_000_000,
        file.watchdog.probe_interval_secs >= 1 ==> c.watchdog.probe_interval.total()
            == file.watchdog.probe_interval_secs * 1_000_000_000,
        c.watchdog.watch_suppression.total() == file.watchdog.watch_suppression_secs
            * 1_000_000_000,
        c.watchdog.debounce.total() == file.watchdog.debounce_ms * 1_000_000,
        c.filesystem.max_read_bytes == file.filesystem.max_read_bytes,
        c.terminal.max_sessions >= 1,
        file.terminal.max_sessions >= 1 ==> c.terminal.max_sessions == file.terminal.max_sessions,
        c.terminal.default_timeout.total() == file.terminal.default_timeout_ms * 1_000_000,
        c.terminal.idle_timeout.total() == file.terminal.idle_timeout_secs * 1_000_000_000,
        c.terminal.max_output_bytes == file.terminal.max_output_bytes,
        file.terminal.shell@.len() > 0 ==> c.terminal.shell@ == file.terminal.shell@,
        c.control.min_uptime.total() == file.control.min_uptime_secs * 1_000_000_000,
        c.control.restart_delay.total() == file.control.restart_delay_ms * 1_000_000,
{
    lemma_worded(env, "GENESIS_CACHE_TTL"@, file.cache.ttl@);
    lemma_worded(env, "GENESIS_BUILD_COMMAND"@, file.build.command@);
    lemma_worded(env, "GENESIS_BUILD_TARGET"@, file.build.target@);
    lemma_worded(env, "GENESIS_BUILD_PROFILE"@, file.build.profile@);
    lemma_is_set(env, "GENESIS_BUILD_TIMEOUT_SECS"@);
    lemma_fits(
        env,
        "GENESIS_BUILD_TIMEOUT_SECS"@,
        u64::MAX as nat,
        file.build.timeout_secs as nat,
    );
    crate::time::lemma_millis(file.watchdog.debounce_ms);
    crate::time::lemma_millis(file.terminal.default_timeout_ms);
    crate::time::lemma_millis(file.control.restart_delay_ms);
}

/// Every directory is the file's field of its own name, taken from the root where it is
/// not absolute; and every list is the file's list, item by item.
pub proof fn law_places_are_set_by_name(
    root: Seq<char>,
    env: Map<Seq<char>, String>,
    windows: bool,
    file: File,
    c: Config,
    i: int,
)
    requires
        root.len() > 0,
        sections_from(root, env, windows, file, c),
    ensures
        stands(root, file.paths.data@, c.paths.data@),
        stands(root, file.paths.artifacts@, c.paths.artifacts@),
        stands(root, file.paths.skills@, c.paths.skills@),
        stands(root, file.paths.templates@, c.paths.templates@),
        stands(root, file.paths.wit@, c.paths.wit@),
        stands(root, file.paths.agent@, c.paths.agent@),
        stands(root, file.paths.gateways@, c.paths.gateways@),
        stands(root, file.paths.tools@, c.paths.tools@),
        c.paths.gateway_prefix@ == file.paths.gateway_prefix@,
        c.paths.tool_prefix@ == file.paths.tool_prefix@,
        stands(root, file.build.target_dir@, c.build.target_dir@),
        c.wasi.dirs@.len() == file.wasi.dirs@.len(),
        0 <= i < file.wasi.dirs@.len() ==> stands(root, file.wasi.dirs@[i]@, c.wasi.dirs@[i]@),
        file.filesystem.roots@.len() == 0 ==> texts(c.filesystem.roots@) == seq![root],
        file.filesystem.roots@.len() > 0 ==> c.filesystem.roots@.len()
            == file.filesystem.roots@.len(),
        0 <= i < file.filesystem.roots@.len() ==> stands(
            root,
            file.filesystem.roots@[i]@,
            c.filesystem.roots@[i]@,
        ),
        texts(c.filesystem.protected@) == texts(file.filesystem.protected@),
        texts(c.devkit.protected_files@) == texts(file.devkit.protected_files@),
        texts(c.devkit.protected_dirs@) == texts(file.devkit.protected_dirs@),
        texts(c.build.extra_args@) == texts(file.build.extra_args@),
        texts(c.build.allowed_crates@) == texts(file.build.allowed_crates@),
        texts(c.cache.explicit_vendors@) == texts(file.cache.explicit_vendors@),
        file.terminal.shell_args@.len() > 0 ==> texts(c.terminal.shell_args@) == texts(
            file.terminal.shell_args@,
        ),
{
    lemma_stands(root, file.paths.data@);
    lemma_stands(root, file.paths.artifacts@);
    lemma_stands(root, file.paths.skills@);
    lemma_stands(root, file.paths.templates@);
    lemma_stands(root, file.paths.wit@);
    lemma_stands(root, file.paths.agent@);
    lemma_stands(root, file.paths.gateways@);
    lemma_stands(root, file.paths.tools@);
    lemma_stands(root, file.build.target_dir@);
    let dirs = texts(c.wasi.dirs@);
    assert(dirs.len() == c.wasi.dirs@.len());
    assert(dirs.len() == texts(file.wasi.dirs@).len());
    if 0 <= i < file.wasi.dirs@.len() {
        assert(dirs[i] == resolved(root, file.wasi.dirs@[i]@));
        lemma_stands(root, file.wasi.dirs@[i]@);
    }
    let roots = texts(c.filesystem.roots@);
    assert(roots.len() == c.filesystem.roots@.len());
    if file.filesystem.roots@.len() > 0 {
        assert(roots.len() == texts(file.filesystem.roots@).len());
    }
    if 0 <= i < file.filesystem.roots@.len() {
        assert(roots[i] == resolved(root, file.filesystem.roots@[i]@));
        lemma_stands(root, file.filesystem.roots@[i]@);
    }
}

/// Whether a path is the one that a file gives: as it is where it is absolute, and
/// otherwise inside the root, with the file's words behind it.
pub open spec fn stands(root: Seq<char>, given: Seq<char>, got: Seq<char>) -> bool {
    if given.len() > 0 && given[0] == '/' {
        got == given
    } else {
        paths::inside(got, root) && text::ends(got, given) && text::begins(got, root)
    }
}

proof fn lemma_stands(root: Seq<char>, given: Seq<char>)
    requires
        root.len() > 0,
    ensures
        stands(root, given, resolved(root, given)),
{
    if !paths::absolute(given) {
        paths::law_below_is_inside(root, given);
        let got = below(root, given);
        assert(got.subrange(got.len() - given.len(), got.len() as int) =~= given);
        assert(got.subrange(0, root.len() as int) =~= root);
    }
}

/// A model is read as its entry writes it, before the sign its id and behind it its
/// label; an entry without the sign is both. Entries are read in order, and blank ones
/// are passed over.
pub proof fn law_every_model_entry_is_read(
    before: Seq<Seq<char>>,
    id: Seq<char>,
    label: Seq<char>,
    after: Seq<Seq<char>>,
)
    requires
        !id.contains('='),
        trimmed(id) == id,
        trimmed(label) == label,
        id.len() > 0,
        label.len() > 0,
    ensures
        model_entries(before + seq![id + seq!['='] + label] + after) == model_entries(before)
            + seq![ModelView { id, label }] + model_entries(after),
        model_entries(before + seq![id] + after) == model_entries(before) + seq![
            ModelView { id, label: id },
        ] + model_entries(after),
        model_entries(before + seq![Seq::<char>::empty()] + after) == model_entries(before)
            + model_entries(after),
        model_entries(Seq::empty()).len() == 0,
{
    let entry = id + seq!['='] + label;
    assert(trimmed(entry) == entry) by {
        text::lemma_ends_dark(id);
        text::lemma_ends_dark(label);
        assert(entry[0] == id[0] && entry.last() == label.last());
        text::lemma_trimmed_keeps(entry);
    }
    text::lemma_cut(id, '=', label);
    text::lemma_position_is(id, '=', id.len() as int);
    lemma_entries_add(before + seq![entry], after);
    lemma_entries_add(before, seq![entry]);
    lemma_entries_add(before + seq![id], after);
    lemma_entries_add(before, seq![id]);
    let blank = Seq::<char>::empty();
    lemma_entries_add(before + seq![blank], after);
    lemma_entries_add(before, seq![blank]);
    assert(model_entries(Seq::<Seq<char>>::empty()) == Seq::<ModelView>::empty());
    assert(seq![entry].drop_last() =~= Seq::<Seq<char>>::empty());
    assert(seq![id].drop_last() =~= Seq::<Seq<char>>::empty());
    assert(seq![blank].drop_last() =~= Seq::<Seq<char>>::empty());
    text::lemma_blank(blank);
    assert(model_entries(seq![entry]) =~= seq![ModelView { id, label }]);
    assert(model_entries(seq![id]) =~= seq![ModelView { id, label: id }]);
    assert(model_entries(seq![blank]) =~= Seq::<ModelView>::empty());
    assert(model_entries(before) + Seq::<ModelView>::empty() =~= model_entries(before));
}

proof fn lemma_entries_add(a: Seq<Seq<char>>, b: Seq<Seq<char>>)
    ensures
        model_entries(a + b) == model_entries(a) + model_entries(b),
    decreases b.len(),
{
    if b.len() == 0 {
        assert(a + b =~= a);
        assert(model_entries(a) + model_entries(b) =~= model_entries(a));
    } else {
        assert((a + b).drop_last() =~= a + b.drop_last());
        assert((a + b).last() == b.last());
        lemma_entries_add(a, b.drop_last());
        if trimmed(b.last()).len() > 0 {
            let m = model_entry(trimmed(b.last()));
            assert((model_entries(a) + model_entries(b.drop_last())).push(m) =~= model_entries(a)
                + model_entries(b.drop_last()).push(m));
        }
    }
}

/// The models on offer are the environment's where it names any, or else the file's,
/// each under its own id and with its own label or else its id, or else the usual ones
/// with the preferred ones ahead. So it is with the modes, without the environment.
pub proof fn law_what_is_offered_is_what_was_listed(
    env: Map<Seq<char>, String>,
    file: File,
    ahead: Seq<ModelView>,
    i: int,
)
    ensures
        ({
            let usual = usual_models(ahead);
            let models = chosen_models(env, file.models@, usual);
            let modes = chosen_modes(file.modes@);
            &&& !is_set(env, "GENESIS_MODELS"@) && file.models@.len() > 0 ==> models.len()
                == file.models@.len()
            &&& !is_set(env, "GENESIS_MODELS"@) && 0 <= i < file.models@.len() ==> models[i].id
                == file.models@[i].id@ && (file.models@[i].label@.len() > 0 ==> models[i].label
                == file.models@[i].label@) && (file.models@[i].label@.len() == 0
                ==> models[i].label == file.models@[i].id@)
            &&& !is_set(env, "GENESIS_MODELS"@) && file.models@.len() == 0 ==> text_models(
                models,
                ahead,
            )
            &&& is_set(env, "GENESIS_MODELS"@) && model_entries(
                pieces(env["GENESIS_MODELS"@]@, ','),
            ).len() > 0 ==> models == model_entries(pieces(env["GENESIS_MODELS"@]@, ','))
            &&& file.modes@.len() > 0 ==> modes.len() == file.modes@.len()
            &&& 0 <= i < file.modes@.len() ==> modes[i].id == file.modes@[i].id@
                && modes[i].description == file.modes@[i].description@ && modes[i].read_only
                == file.modes@[i].read_only && (file.modes@[i].label@.len() > 0 ==> modes[i].label
                == file.modes@[i].label@)
            &&& file.modes@.len() == 0 ==> (exists|k: int|
                0 <= k < modes.len() && !(#[trigger] modes[k]).read_only) && (exists|k: int|
                0 <= k < modes.len() && (#[trigger] modes[k]).read_only)
        }),
{
    lemma_is_set(env, "GENESIS_MODELS"@);
    let modes = chosen_modes(file.modes@);
    if file.modes@.len() == 0 {
        assert(modes.len() == 2);
        assert(!modes[0].read_only);
        assert(modes[1].read_only);
    }
    assert(usual_models(ahead).take(ahead.len() as int) =~= ahead);
}

/// Whether models start with the preferred ones.
pub open spec fn text_models(models: Seq<ModelView>, ahead: Seq<ModelView>) -> bool {
    ahead.len() < models.len() && models.take(ahead.len() as int) == ahead
}

/// A mode is found under its id, the first of that id; and none is found where there is
/// none.
pub proof fn law_a_mode_is_found_by_its_id(modes: Seq<ModeView>, id: Seq<char>)
    ensures
        match find_mode(modes, id) {
            Some(m) => exists|i: int|
                0 <= i < modes.len() && modes[i] == m && m.id == id && (forall|j: int|
                    0 <= j < i ==> (#[trigger] modes[j]).id != id) && #[trigger] modes[i] == m,
            None => forall|j: int| 0 <= j < modes.len() ==> (#[trigger] modes[j]).id != id,
        },
    decreases modes.len(),
{
    if modes.len() > 0 {
        let rest = modes.skip(1);
        law_a_mode_is_found_by_its_id(rest, id);
        if modes[0].id == id {
            assert(modes[0] == find_mode(modes, id)->0);
        } else {
            assert forall|j: int| 0 <= j < rest.len() implies (#[trigger] modes[j + 1]) == rest[j] by {}
            match find_mode(rest, id) {
                Some(m) => {
                    let i = choose|i: int|
                        0 <= i < rest.len() && rest[i] == m && m.id == id && (forall|j: int|
                            0 <= j < i ==> (#[trigger] rest[j]).id != id) && #[trigger] rest[i]
                            == m;
                    assert(modes[i + 1] == m);
                    assert forall|j: int| 0 <= j < i + 1 implies (#[trigger] modes[j]).id != id by {
                        if j > 0 {
                            assert(rest[j - 1] == modes[j]);
                        }
                    }
                },
                None => {
                    assert forall|j: int| 0 <= j < modes.len() implies (#[trigger] modes[j]).id
                        != id by {
                        if j > 0 {
                            assert(rest[j - 1] == modes[j]);
                        }
                    }
                },
            }
        }
    }
}

/// The key is the environment's where it gives one, or else the file's, with the white
/// space round it taken off; and there is none where neither gives one.
pub proof fn law_a_key_is_taken_from_the_environment_first(
    from_env: Option<Seq<char>>,
    from_file: Seq<char>,
)
    ensures
        match key_text(from_env, from_file) {
            Some(k) => k.len() > 0 && (if from_env matches Some(e) && trimmed(e).len() > 0 {
                k == trimmed(from_env->0)
            } else {
                k == trimmed(from_file)
            }),
            None => trimmed(from_file).len() == 0 && (from_env matches Some(e) ==> trimmed(e).len()
                == 0),
        },
{
}

/// The prompt is the environment's, or else what the named file holds, or else the
/// file's own words, or else the usual one.
pub proof fn law_the_prompt_is_the_first_given(
    env: Map<Seq<char>, String>,
    root: Seq<char>,
    agent: file::Agent,
    read: Result<Seq<char>, Seq<char>>,
)
    ensures
        ({
            let prompt = prompt_from(prompt_choice(env, root, agent), read);
            if is_set(env, "GENESIS_SYSTEM_PROMPT"@) {
                prompt == Ok::<Seq<char>, Seq<char>>(env["GENESIS_SYSTEM_PROMPT"@]@)
            } else if agent.system_prompt_file@.len() > 0 {
                match read {
                    Ok(s) => prompt == Ok::<Seq<char>, Seq<char>>(s),
                    Err(e) => prompt matches Err(why) && text::ends(why, e),
                }
            } else if agent.system_prompt@.len() > 0 {
                prompt == Ok::<Seq<char>, Seq<char>>(agent.system_prompt@)
            } else {
                prompt is Ok
            }
        }),
{
    lemma_is_set(env, "GENESIS_SYSTEM_PROMPT"@);
    if read is Err && prompt_choice(env, root, agent) is File {
        let e = read->Err_0;
        let why = "reading the system prompt at "@ + prompt_choice(env, root, agent)->File_0
            + ": "@ + e;
        assert(why.subrange(why.len() - e.len(), why.len() as int) =~= e);
    }
}

/// The root is the environment's, or else where the file was found, or else the current
/// directory; the file is the environment's, taken from the root, or else the usual one
/// in the root.
pub proof fn law_the_root_is_the_first_given(
    env: Map<Seq<char>, String>,
    found: Option<Seq<char>>,
    cwd: Seq<char>,
    root: Seq<char>,
)
    requires
        root.len() > 0,
    ensures
        is_set(env, "GENESIS_ROOT"@) ==> chosen_root(env, found, cwd) == env["GENESIS_ROOT"@]@,
        !is_set(env, "GENESIS_ROOT"@) && found is Some ==> chosen_root(env, found, cwd) == found->0,
        !is_set(env, "GENESIS_ROOT"@) && found is None ==> chosen_root(env, found, cwd) == cwd,
        is_set(env, "GENESIS_CONFIG"@) ==> stands(
            root,
            env["GENESIS_CONFIG"@]@,
            chosen_config(env, root),
        ),
        !is_set(env, "GENESIS_CONFIG"@) ==> stands(root, "genesis.toml"@, chosen_config(env, root)),
{
    lemma_is_set(env, "GENESIS_ROOT"@);
    lemma_is_set(env, "GENESIS_CONFIG"@);
    lemma_stands(root, "genesis.toml"@);
    if is_set(env, "GENESIS_CONFIG"@) {
        lemma_stands(root, env["GENESIS_CONFIG"@]@);
    }
    reveal_strlit("genesis.toml");
}

/// What is wrong with a configuration is said: an address that does not parse with the
/// address, a mode that is not offered with its name and all that are.
pub proof fn law_a_fault_is_named(
    root: Seq<char>,
    file: File,
    env: Map<Seq<char>, String>,
    bind_fault: Option<Seq<char>>,
    prompt: Result<Seq<char>, Seq<char>>,
    i: int,
)
    ensures
        ({
            let fault = config_fault(root, file, env, bind_fault, prompt);
            let mode = env_or(env, "GENESIS_DEFAULT_MODE"@, file.agent.default_mode@);
            let ids = mode_ids(chosen_modes(file.modes@));
            &&& bind_fault matches Some(b) ==> (fault matches Some(f) && text::occurs(
                f,
                chosen_bind(env, file),
            ) && text::ends(f, bind_fault->0))
            &&& bind_fault is None && prompt is Ok && !ids.contains(mode) ==> (fault matches Some(f)
                && text::occurs(f, mode) && (0 <= i < ids.len() ==> text::occurs(f, ids[i])))
            &&& bind_fault is None && prompt is Ok && ids.contains(mode) ==> fault is None
        }),
{
    let mode = env_or(env, "GENESIS_DEFAULT_MODE"@, file.agent.default_mode@);
    let ids = mode_ids(chosen_modes(file.modes@));
    if let Some(b) = bind_fault {
        let addr = chosen_bind(env, file);
        let f = "`"@ + addr + "` is not a valid host:port: "@ + b;
        assert(f.subrange(f.len() - b.len(), f.len() as int) =~= b);
        text::lemma_occurs_between("`"@, addr, "` is not a valid host:port: "@ + b);
        assert(f =~= "`"@ + addr + ("` is not a valid host:port: "@ + b));
    } else if prompt is Ok && !ids.contains(mode) {
        let all = joined(ids, ", "@);
        let lead = "default_mode `"@ + mode + "` is not one of the configured modes ("@;
        let f = lead + all + ")"@;
        text::lemma_occurs_between(
            "default_mode `"@,
            mode,
            "` is not one of the configured modes ("@ + all + ")"@,
        );
        assert(f =~= "default_mode `"@ + mode + ("` is not one of the configured modes ("@ + all
            + ")"@));
        if 0 <= i < ids.len() {
            text::law_joining_loses_nothing(ids, ", "@, i);
            text::lemma_occurs_within(lead, all, ")"@, ids[i]);
        }
    }
}

/// Every revision of a slot has its own directory, inside the artifacts.
pub proof fn law_every_revision_has_its_own_directory(p: Paths, slot: SlotView, a: u64, b: u64)
    requires
        a != b,
    ensures
        revision_dir(p, slot, a) != revision_dir(p, slot, b),
{
    let base = below(p.artifacts@, slot_subdir(slot));
    let x = "r"@ + zero_padded(a as nat, 4);
    let y = "r"@ + zero_padded(b as nat, 4);
    reveal_strlit("r");
    assert(x[0] == 'r' && y[0] == 'r');
    if below(base, x) == below(base, y) {
        let m = below(base, x);
        let sep = if base.len() == 0 || base.last() == '/' {
            Seq::<char>::empty()
        } else {
            "/"@
        };
        assert(below(base, x) =~= base + sep + x);
        assert(below(base, y) =~= base + sep + y);
        assert(m.len() == base.len() + sep.len() + x.len());
        assert(m.len() == base.len() + sep.len() + y.len());
        assert(m.skip(m.len() - x.len()) =~= x);
        assert(m.skip(m.len() - y.len()) =~= y);
        assert(x.skip(1) =~= zero_padded(a as nat, 4));
        assert(y.skip(1) =~= zero_padded(b as nat, 4));
        text::law_padding_keeps_the_number(a as nat, 4);
        text::law_padding_keeps_the_number(b as nat, 4);
    }
}

/// A source tree is where its kind's trees are, under its own name with the prefix of
/// its kind.
pub proof fn law_a_source_tree_is_named_for_its_slot(p: Paths, name: Seq<char>)
    requires
        paths::is_simple(p.gateway_prefix@ + name),
        paths::is_simple(p.tool_prefix@ + name),
        p.gateways@.len() > 0,
        p.tools@.len() > 0,
    ensures
        source_crate(p, SlotView::Gateway(name)) == p.gateway_prefix@ + name,
        source_crate(p, SlotView::Tool(name)) == p.tool_prefix@ + name,
        paths::inside(source_dir(p, SlotView::Gateway(name)), p.gateways@),
        paths::inside(source_dir(p, SlotView::Tool(name)), p.tools@),
        source_dir(p, SlotView::Agent) == p.agent@,
{
    paths::lemma_name_below(p.gateways@, p.gateway_prefix@ + name);
    paths::lemma_name_below(p.tools@, p.tool_prefix@ + name);
}

/// The overlay lies beside its file under the file's own name, marked as local.
pub proof fn law_the_overlay_lies_beside_its_file(base: Seq<char>, name: Seq<char>)
    requires
        paths::is_plain(paths::parts(base)),
        paths::is_simple(name + ".toml"@),
        paths::is_simple(name + ".local.toml"@),
        name.len() > 0,
    ensures
        last_name(overlay_path(below(base, name + ".toml"@))) == Some(name + ".local.toml"@),
        paths::container(overlay_path(below(base, name + ".toml"@))) matches Some(c)
            && paths::parts(c) == paths::parts(base),
{
    reveal_strlit(".toml");
    reveal_strlit("toml");
    let ext = "toml"@;
    let full = name + ".toml"@;
    let local = name + ".local.toml"@;
    assert(".toml"@ =~= seq!['.'] + ext);
    assert(!ext.contains('.'));
    assert(full =~= name + seq!['.'] + ext);
    paths::law_names_are_put_on_and_taken_off(base, full, ext);
    paths::lemma_stem(name, ext);
    let p = paths::parts(below(base, full));
    paths::lemma_plain_is_something(base);
    paths::lemma_name_below(base, full);
    assert(p.drop_last() =~= paths::parts(base));
    let up = paths::written(paths::parts(base));
    paths::law_written_parts_read_back(paths::parts(base));
    paths::lemma_plain_is_something(up);
    paths::lemma_name_below(up, local);
    paths::law_names_are_put_on_and_taken_off(up, local, ext);
}

/// The shell is the host's own, and reads what it runs from its input.
pub proof fn law_the_shell_is_the_hosts_own(windows: bool)
    ensures
        usual_shell(true) != usual_shell(false),
        usual_shell_args(windows).len() > 0,
        usual_shell(false) == "sh"@ && usual_shell_args(false).contains("-s"@),
        usual_shell(true) == "powershell"@ && usual_shell_args(true).last() == "-"@,
{
    reveal_strlit("powershell");
    reveal_strlit("sh");
    assert("powershell"@.len() == 10 && "sh"@.len() == 2);
    assert(usual_shell_args(false)[0] == "-s"@);
}

/// A vendor that is listed is marked for, whatever case it is written in, and no other
/// is.
pub proof fn law_listed_vendors_are_marked_for(
    vendors: Seq<Seq<char>>,
    vendor: Seq<char>,
    other: Seq<char>,
    i: int,
)
    ensures
        0 <= i < vendors.len() && vendors[i] == vendor ==> cache_strategy(vendors, vendor)
            is Breakpoints,
        text::same_letters(vendor, other) && 0 <= i < vendors.len() && vendors[i] == vendor
            ==> cache_strategy(vendors, other) is Breakpoints,
        (forall|k: int|
            0 <= k < vendors.len() ==> !text::same_letters(#[trigger] vendors[k], vendor))
            ==> cache_strategy(vendors, vendor) is Automatic,
{
    if 0 <= i < vendors.len() && vendors[i] == vendor {
        assert(text::same_letters(vendors[i], vendor));
        if text::same_letters(vendor, other) {
            assert(text::same_letters(vendors[i], other));
        }
    }
}

/// Of the usual modes the one a session starts in may change things, and planning may
/// not.
pub proof fn law_the_usual_modes_do_what_they_say()
    ensures
        find_mode(usual_modes(), "agent"@) matches Some(m) && !m.read_only,
        find_mode(usual_modes(), "plan"@) matches Some(m) && m.read_only,
{
    let modes = usual_modes();
    reveal_strlit("agent");
    reveal_strlit("plan");
    assert("agent"@.len() == 5 && "plan"@.len() == 4);
    assert(modes.skip(1)[0] == modes[1]);
    reveal_with_fuel(find_mode, 3);
}

/// A file that says nothing is cautious: the harness listens on this machine alone,
/// guests see neither its environment nor its streams, nothing runs in a sandbox that
/// is not there, what decides a build cannot be edited, and the system's own state
/// cannot be written; a part never gets longer than the whole.
pub proof fn law_the_usual_file_is_cautious(file: File)
    requires
        file.usual(),
    ensures
        text::begins(file.server.bind@, "127.0.0.1:"@),
        !file.wasi.env && !file.wasi.stdio,
        !file.sandbox.enabled,
        texts(file.devkit.protected_files@).contains("Cargo.toml"@),
        texts(file.devkit.protected_files@).contains("build.rs"@),
        texts(file.filesystem.protected@).contains("data"@),
        texts(file.filesystem.protected@).contains(".git"@),
        file.budgets.probe_secs <= file.budgets.tool_secs <= file.budgets.turn_secs,
        file.budgets.wasm_slice_secs <= file.budgets.tool_secs,
        file.watchdog.failure_threshold >= 1,
        file.limits.max_tool_output_bytes <= file.limits.max_attachment_bytes,
        file.agent.max_iterations >= 1,
{
    reveal_strlit("127.0.0.1:7777");
    reveal_strlit("127.0.0.1:");
    assert("127.0.0.1:7777"@.subrange(0, 10) =~= "127.0.0.1:"@);
    let f = texts(file.devkit.protected_files@);
    assert(f[0] == "Cargo.toml"@ && f[2] == "build.rs"@);
    let p = texts(file.filesystem.protected@);
    assert(p[0] == "data"@ && p[2] == ".git"@);
}

} // verus!
