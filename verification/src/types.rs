//! The records that pass between the agent, the harness and the chat surface.
use vstd::prelude::*;

use crate::text::texts;

verus! {

/// What a change is made to.
#[derive(Debug, Clone, PartialEq, Eq)]
pub enum ModTarget {
    /// The agent's own loop.
    AgentSelf,
    /// A tool, by name.
    Tool(String),
    /// A gateway, by name.
    Gateway(String),
}

/// What a change is made to, as text.
pub enum ModTargetView {
    /// The agent's own loop.
    AgentSelf,
    /// A tool, by name.
    Tool(Seq<char>),
    /// A gateway, by name.
    Gateway(Seq<char>),
}

impl View for ModTarget {
    type V = ModTargetView;

    open spec fn view(&self) -> ModTargetView {
        match self {
            ModTarget::AgentSelf => ModTargetView::AgentSelf,
            ModTarget::Tool(n) => ModTargetView::Tool(n@),
            ModTarget::Gateway(n) => ModTargetView::Gateway(n@),
        }
    }
}

/// What is put back to an earlier state.
#[derive(Debug, Clone, PartialEq, Eq)]
pub enum RollbackTarget {
    /// The agent's own loop.
    AgentSelf,
    /// A tool, by name.
    Tool(String),
    /// A gateway, by name.
    Gateway(String),
    /// Everything at once.
    WholeSystem,
}

/// What is put back to an earlier state, as text.
pub enum RollbackTargetView {
    /// The agent's own loop.
    AgentSelf,
    /// A tool, by name.
    Tool(Seq<char>),
    /// A gateway, by name.
    Gateway(Seq<char>),
    /// Everything at once.
    WholeSystem,
}

impl View for RollbackTarget {
    type V = RollbackTargetView;

    open spec fn view(&self) -> RollbackTargetView {
        match self {
            RollbackTarget::AgentSelf => RollbackTargetView::AgentSelf,
            RollbackTarget::Tool(n) => RollbackTargetView::Tool(n@),
            RollbackTarget::Gateway(n) => RollbackTargetView::Gateway(n@),
            RollbackTarget::WholeSystem => RollbackTargetView::WholeSystem,
        }
    }
}

/// The verdict on one change.
#[derive(Debug, Clone, PartialEq, Eq)]
pub struct CompileReport {
    /// Whether the change went live.
    pub success: bool,
    /// The key of the slot that was built.
    pub slot: String,
    /// The revision that is in service after a success.
    pub revision: Option<u64>,
    /// What the compiler said.
    pub stderr: String,
    /// How long the whole path took.
    pub duration_ms: u64,
    /// Whether the change lands when the current turn ends.
    pub pending_swap: bool,
    /// Why the change did not go live, or a note on why nothing changed.
    pub detail: String,
}

/// How a tool introduces itself.
#[derive(Debug, Clone, PartialEq, Eq)]
pub struct ToolManifest {
    /// The name it is called by.
    pub name: String,
    /// What it does.
    pub description: String,
    /// The JSON schema of its arguments.
    pub args_schema_json: String,
    /// What kind of tool it is.
    pub capabilities: Vec<String>,
}

/// What a tool's manifest says.
pub struct ManifestView {
    /// The name it is called by.
    pub name: Seq<char>,
    /// What it does.
    pub description: Seq<char>,
    /// The JSON schema of its arguments.
    pub args_schema_json: Seq<char>,
    /// What kind of tool it is.
    pub capabilities: Seq<Seq<char>>,
}

impl View for ToolManifest {
    type V = ManifestView;

    open spec fn view(&self) -> ManifestView {
        ManifestView {
            name: self.name@,
            description: self.description@,
            args_schema_json: self.args_schema_json@,
            capabilities: texts(self.capabilities@),
        }
    }
}

/// What each manifest of a list says.
pub open spec fn manifest_views(items: Seq<ToolManifest>) -> Seq<ManifestView> {
    items.map_values(|m: ToolManifest| m@)
}

impl ToolManifest {
    /// A copy of the manifest.
    pub fn copy(&self) -> (r: ToolManifest)
        ensures
            r@ == self@,
    {
        ToolManifest {
            name: self.name.clone(),
            description: self.description.clone(),
            args_schema_json: self.args_schema_json.clone(),
            capabilities: crate::text::copies(&self.capabilities),
        }
    }
}

/// What a command in the sandbox left behind.
#[derive(Debug, Clone, PartialEq, Eq)]
pub struct ExecResult {
    /// The exit code.
    pub exit_code: i32,
    /// Standard output.
    pub stdout: String,
    /// Standard error.
    pub stderr: String,
    /// Whether it was cut off by its timeout.
    pub timed_out: bool,
    /// Whether its output was shortened.
    pub truncated: bool,
}

/// One member of a directory.
#[derive(Debug, Clone, PartialEq, Eq)]
pub struct FsEntry {
    /// Its name.
    pub name: String,
    /// Its path as shown.
    pub path: String,
    /// Whether it is a directory.
    pub is_dir: bool,
    /// Its size in bytes.
    pub size: u64,
}

/// What a command in a terminal printed.
#[derive(Debug, Clone, PartialEq, Eq)]
pub struct TerminalOutput {
    /// What it printed.
    pub output: String,
    /// Whether it was still running when the timeout elapsed.
    pub timed_out: bool,
    /// Whether the beginning of the output was cut.
    pub truncated: bool,
}

/// One open terminal.
#[derive(Debug, Clone, PartialEq, Eq)]
pub struct TerminalInfo {
    /// Its id.
    pub id: String,
    /// The directory it was opened in.
    pub cwd: String,
    /// The shell it runs.
    pub shell: String,
    /// Whether its shell is still running.
    pub alive: bool,
    /// How many commands it has been given.
    pub commands: u32,
}

/// One setting of the harness.
#[derive(Debug, Clone, PartialEq, Eq)]
pub struct ConfigEntry {
    /// Its dotted path.
    pub key: String,
    /// Its value.
    pub value: String,
    /// Whether it can be changed.
    pub editable: bool,
    /// Whether a change takes effect without a restart.
    pub live: bool,
}

/// One dependency of a component.
#[derive(Debug, Clone, PartialEq, Eq)]
pub struct Dependency {
    /// The crate's name.
    pub name: String,
    /// The version requirement.
    pub version: String,
    /// The features that are switched on.
    pub features: Vec<String>,
    /// Whether the default features stay on.
    pub default_features: bool,
}

/// What a dependency says.
pub struct DependencyView {
    /// The crate's name.
    pub name: Seq<char>,
    /// The version requirement.
    pub version: Seq<char>,
    /// The features that are switched on.
    pub features: Seq<Seq<char>>,
    /// Whether the default features stay on.
    pub default_features: bool,
}

impl View for Dependency {
    type V = DependencyView;

    open spec fn view(&self) -> DependencyView {
        DependencyView {
            name: self.name@,
            version: self.version@,
            features: texts(self.features@),
            default_features: self.default_features,
        }
    }
}

/// One line of a revision history.
#[derive(Debug, Clone, PartialEq, Eq)]
pub struct RevisionInfo {
    /// The key of the slot, or `system`.
    pub slot: String,
    /// The revision, or the snapshot's id.
    pub revision: u64,
    /// Where the revision stands.
    pub status: String,
    /// Who made it.
    pub origin: String,
    /// What was noted when it was made.
    pub note: String,
    /// When it was made.
    pub created_ms: u64,
}

/// One way a conversation can be held.
#[derive(Debug, Clone, PartialEq, Eq)]
pub struct ModeInfo {
    /// Its id.
    pub id: String,
    /// Its label.
    pub label: String,
    /// What it is for.
    pub description: String,
    /// Whether tools that change things are withheld.
    pub read_only: bool,
    /// What is added to the prompt.
    pub prompt: String,
}

/// One model that can be chosen.
#[derive(Debug, Clone, PartialEq, Eq)]
pub struct ModelInfo {
    /// Its id.
    pub id: String,
    /// Its label.
    pub label: String,
}

/// One skill and whether a conversation has it attached.
#[derive(Debug, Clone, PartialEq, Eq)]
pub struct SkillInfo {
    /// Its id.
    pub id: String,
    /// Its name.
    pub name: String,
    /// What it is for.
    pub description: String,
    /// What it tells the model.
    pub instructions: String,
    /// Whether it is attached.
    pub enabled: bool,
}

/// What the chat surface reads of a session.
#[derive(Debug, Clone, PartialEq, Eq)]
pub struct SessionMeta {
    /// Its id.
    pub id: String,
    /// Its title.
    pub title: String,
    /// Its mode.
    pub mode: String,
    /// Its model, empty where it has none of its own.
    pub model: String,
}

/// A file attached to a message.
#[derive(Debug, Clone, PartialEq, Eq)]
pub struct Attachment {
    /// The file's name.
    pub name: String,
    /// Its media type.
    pub mime: String,
    /// Its contents.
    pub data_base64: String,
}

/// A message from the user.
#[derive(Debug, Clone, PartialEq, Eq)]
pub struct UserMsg {
    /// What the user wrote.
    pub text: String,
    /// What came with it.
    pub attachments: Vec<Attachment>,
}

/// A call the model asks for.
#[derive(Debug, Clone, PartialEq, Eq)]
pub struct ToolCall {
    /// The id the result goes back under.
    pub id: String,
    /// The tool's name.
    pub name: String,
    /// Its arguments.
    pub arguments_json: String,
}

/// What came of a call.
#[derive(Debug, Clone, PartialEq, Eq)]
pub struct ToolOutcome {
    /// The id of the call.
    pub call_id: String,
    /// The tool's name.
    pub name: String,
    /// Whether it worked.
    pub ok: bool,
    /// What it said.
    pub content: String,
}

/// What one completion used up.
#[derive(Debug, Clone, Copy, PartialEq, Eq)]
pub struct TokenUsage {
    /// Tokens read.
    pub prompt_tokens: u32,
    /// Tokens written.
    pub completion_tokens: u32,
}

/// What the model said.
#[derive(Debug, Clone, PartialEq, Eq)]
pub struct AssistantMsg {
    /// The words.
    pub content: String,
    /// The calls it asks for.
    pub tool_calls: Vec<ToolCall>,
    /// The model that answered.
    pub model: String,
    /// What it used up, if the provider said.
    pub usage: Option<TokenUsage>,
}

/// One event of a conversation.
#[derive(Debug, Clone, PartialEq, Eq)]
pub enum SessionEvent {
    /// The user wrote.
    UserMessage(UserMsg),
    /// The user added something while a turn was running.
    Nudge(String),
    /// The model answered.
    AssistantMessage(AssistantMsg),
    /// A tool was called.
    ToolInvocation(ToolCall),
    /// A tool answered.
    ToolResult(ToolOutcome),
    /// The harness noted something.
    SystemNote(String),
    /// A piece of an answer on its way.
    StreamDelta(String),
    /// Something failed.
    Incident(String),
}

/// Something that arrived while a turn was running.
#[derive(Debug, Clone, PartialEq, Eq)]
pub enum InboxItem {
    /// More from the user.
    Nudge(String),
    /// The user wants the turn to stop.
    Cancel,
    /// A command to the harness.
    Control(String),
}

/// Why a completion failed.
#[derive(Debug, Clone, PartialEq, Eq)]
pub enum LlmError {
    /// The key was refused.
    Auth(String),
    /// Too many requests.
    RateLimited(String),
    /// The connection failed.
    Transport(String),
    /// The model failed.
    ModelError(String),
    /// The spend limit is used up.
    Budget(String),
    /// The request made no sense.
    BadRequest(String),
}

} // verus!
