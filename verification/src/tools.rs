//! The agent's tool surface.
//!
//! Tools are advertised only when the capability behind them is actually
//! available, so the model is never offered something that will just fail. As
//! the orchestrator gains capabilities (the sandbox, the dev kit), the flags
//! flip and the tools appear without the agent needing to change.
use vstd::prelude::*;

use crate::dispatch::arguments_of;
use crate::json;
use crate::json::{trees, Json, JsonView};
use crate::text;
use crate::text::texts;
use crate::tool_words::{
    TARGET, ROLLBACK_TARGET, REMEMBER, REMEMBER_KEY, REMEMBER_VALUE, RECALL, RECALL_KEY, EXEC,
    EXEC_COMMAND, EXEC_TIMEOUT_MS, WRITE_FILE, WRITE_FILE_PATH, WRITE_FILE_CONTENTS, READ_FILE,
    LIST_CONFIG, LIST_CONFIG_PREFIX, READ_CONFIG, READ_CONFIG_KEY, SET_CONFIG, SET_CONFIG_VALUE,
    RESTART_ORCHESTRATOR, RESTART_ORCHESTRATOR_REASON, RESTART_ORCHESTRATOR_RESUME, READ_PATH,
    READ_PATH_PATH, WRITE_PATH, WRITE_PATH_PATH, WRITE_PATH_CONTENTS, LIST_PATH, LIST_PATH_PATH,
    DELETE_PATH, DELETE_PATH_PATH, DELETE_PATH_RECURSIVE, TERMINAL_OPEN, TERMINAL_OPEN_CWD,
    TERMINAL_RUN, TERMINAL_RUN_ID, TERMINAL_RUN_TIMEOUT_MS, TERMINAL_READ, TERMINAL_READ_ID,
    TERMINAL_CLOSE, TERMINAL_LIST, NEW_TOOL, NEW_TOOL_NAME, NEW_TOOL_DESCRIPTION, WRITE_CODE,
    WRITE_CODE_PATH, PATCH_CODE, PATCH_CODE_OLD_TEXT, PATCH_CODE_NEW_TEXT, ADD_DEPENDENCY,
    ADD_DEPENDENCY_NAME, ADD_DEPENDENCY_VERSION, ADD_DEPENDENCY_FEATURES,
    ADD_DEPENDENCY_DEFAULT_FEATURES, REMOVE_DEPENDENCY, REMOVE_DEPENDENCY_NAME,
    LIST_DEPENDENCIES, READ_CODE, READ_CODE_PATH, LIST_CODE, ROLLBACK, ROLLBACK_REVISION,
    HISTORY,
};
use crate::types::{manifest_views, ManifestView, ModeInfo, ToolManifest};

verus! {

/// The mode assumed when a session has not chosen one.
pub const DEFAULT_MODE: &'static str = "agent";

/// One built-in tool.
pub struct ToolDef {
    /// The name it is called by.
    pub name: &'static str,
    /// What it does.
    pub description: &'static str,
    /// The JSON schema of its arguments.
    pub parameters: Json,
    /// Whether calling this changes something outside the conversation.
    /// Read-only modes withhold the ones that do.
    pub mutating: bool,
}

/// What the definition of a built-in tool says.
pub struct ToolView {
    /// The name it is called by.
    pub name: Seq<char>,
    /// What it does.
    pub description: Seq<char>,
    /// The JSON schema of its arguments.
    pub parameters: JsonView,
    /// Whether calling it changes something outside the conversation.
    pub mutating: bool,
}

impl View for ToolDef {
    type V = ToolView;

    open spec fn view(&self) -> ToolView {
        ToolView {
            name: self.name@,
            description: self.description@,
            parameters: self.parameters@,
            mutating: self.mutating,
        }
    }
}

/// What each definition of a list says.
pub open spec fn tool_views(tools: Seq<ToolDef>) -> Seq<ToolView> {
    tools.map_values(|t: ToolDef| t@)
}

/// Which capabilities the harness has switched on.
#[derive(Debug, Clone, Copy, PartialEq, Eq)]
pub struct Access {
    /// The exec sandbox.
    pub sandbox: bool,
    /// Self-modification.
    pub devkit: bool,
    /// The host's files.
    pub filesystem: bool,
    /// Shell sessions.
    pub terminal: bool,
    /// Restarting the process.
    pub restart: bool,
}

// --- schemas ----------------------------------------------------------------

/// The schema of an object with these properties.
pub open spec fn schema(props: Map<Seq<char>, JsonView>, required: Seq<Seq<char>>) -> JsonView {
    JsonView::Object(
        map![
            "type"@ => JsonView::Text("object"@),
            "properties"@ => JsonView::Object(props),
            "required"@ => json::text_array(required),
            "additionalProperties"@ => JsonView::Bool(false),
        ],
    )
}

/// The schema of one value of the given type.
pub open spec fn typed_schema(kind: Seq<char>, description: Seq<char>) -> JsonView {
    JsonView::Object(
        map![
            "type"@ => JsonView::Text(kind),
            "description"@ => JsonView::Text(description),
        ],
    )
}

/// The schema of a string.
pub open spec fn string_schema(description: Seq<char>) -> JsonView {
    typed_schema("string"@, description)
}

/// The schema of a list of strings.
pub open spec fn list_schema(description: Seq<char>) -> JsonView {
    JsonView::Object(
        map![
            "type"@ => JsonView::Text("array"@),
            "items"@ => JsonView::Object(map!["type"@ => JsonView::Text("string"@)]),
            "description"@ => JsonView::Text(description),
        ],
    )
}

/// The schema of one of several strings.
pub open spec fn choice_schema(choices: Seq<Seq<char>>, description: Seq<char>) -> JsonView {
    JsonView::Object(
        map![
            "type"@ => JsonView::Text("string"@),
            "enum"@ => json::text_array(choices),
            "description"@ => JsonView::Text(description),
        ],
    )
}

/// The texts a list of borrowed strings holds.
pub open spec fn str_texts(items: Seq<&str>) -> Seq<Seq<char>> {
    items.map_values(|s: &str| s@)
}

/// A list of strings as a document.
pub(crate) fn words(items: &[&str]) -> (r: Json)
    ensures
        r@ == json::text_array(str_texts(items@)),
{
    let mut out: Vec<Json> = Vec::new();
    for i in 0..items.len()
        invariant
            trees(out@) == json::text_trees(str_texts(items@).take(i as int)),
    {
        let ghost had = out@;
        let item = Json::text(items[i]);
        out.push(item);
        proof {
            json::lemma_trees_push(had, item);
            assert(trees(out@) =~= json::text_trees(str_texts(items@).take(i + 1)));
        }
    }
    assert(str_texts(items@).take(items@.len() as int) =~= str_texts(items@));
    Json::Array(out)
}

/// The schema of one of several strings.
pub(crate) fn choice_prop(choices: &[&str], description: &str) -> (r: Json)
    ensures
        forall|names: Seq<Seq<char>>|
            names =~= str_texts(choices@) ==> r@ == #[trigger] choice_schema(names, description@),
{
    Json::object().with("type", Json::text("string")).with("enum", words(choices)).with(
        "description",
        Json::text(description),
    )
}

/// The schema of an object with these properties.
pub(crate) fn obj(props: Json, required: &[&str]) -> (r: Json)
    requires
        props@ is Object,
    ensures
        forall|names: Seq<Seq<char>>|
            names =~= str_texts(required@) ==> r@ == #[trigger] schema(props@->Object_0, names),
{
    Json::object().with("type", Json::text("object")).with("properties", props).with(
        "required",
        words(required),
    ).with("additionalProperties", Json::Bool(false))
}

pub(crate) fn typed_prop(kind: &str, description: &str) -> (r: Json)
    ensures
        r@ == typed_schema(kind@, description@),
{
    Json::object().with("type", Json::text(kind)).with("description", Json::text(description))
}

pub(crate) fn string_prop(description: &str) -> (r: Json)
    ensures
        r@ == string_schema(description@),
{
    typed_prop("string", description)
}

pub(crate) fn list_prop(description: &str) -> (r: Json)
    ensures
        r@ == list_schema(description@),
{
    Json::object().with("type", Json::text("array")).with(
        "items",
        Json::object().with("type", Json::text("string")),
    ).with("description", Json::text(description))
}

// --- the catalogue ----------------------------------------------------------

/// The notes a conversation keeps.
pub open spec fn memory_catalogue() -> Seq<ToolView> {
    seq![
        ToolView {
            name: "remember"@,
            description: REMEMBER@,
            mutating: false,
            parameters: schema(
                map![
                    "key"@ => string_schema(REMEMBER_KEY@),
                    "value"@ => string_schema(REMEMBER_VALUE@),
                ],
                seq!["key"@, "value"@],
            ),
        },
        ToolView {
            name: "recall"@,
            description: RECALL@,
            mutating: false,
            parameters: schema(
                map![
                    "key"@ => string_schema(RECALL_KEY@),
                ],
                Seq::empty(),
            ),
        },
    ]
}

/// The notes a conversation keeps.
fn memory_tools() -> (r: Vec<ToolDef>)
    ensures
        tool_views(r@) == memory_catalogue(),
{
    let tools = vec![
        ToolDef {
            name: "remember",
            description: REMEMBER,
            mutating: false,
            parameters: obj(
                Json::object()
                    .with("key", string_prop(REMEMBER_KEY))
                    .with("value", string_prop(REMEMBER_VALUE)),
                &["key", "value"],
            ),
        },
        ToolDef {
            name: "recall",
            description: RECALL,
            mutating: false,
            parameters: obj(
                Json::object()
                    .with("key", string_prop(RECALL_KEY)),
                &[],
            ),
        },
    ];
    assert(tool_views(tools@) =~= memory_catalogue());
    tools
}

/// Running code in the session's container.
pub open spec fn sandbox_catalogue() -> Seq<ToolView> {
    seq![
        ToolView {
            name: "exec"@,
            description: EXEC@,
            mutating: true,
            parameters: schema(
                map![
                    "command"@ => string_schema(EXEC_COMMAND@),
                    "timeout_ms"@ => typed_schema("integer"@, EXEC_TIMEOUT_MS@),
                ],
                seq!["command"@],
            ),
        },
        ToolView {
            name: "write_file"@,
            description: WRITE_FILE@,
            mutating: true,
            parameters: schema(
                map![
                    "path"@ => string_schema(WRITE_FILE_PATH@),
                    "contents"@ => string_schema(WRITE_FILE_CONTENTS@),
                ],
                seq!["path"@, "contents"@],
            ),
        },
        ToolView {
            name: "read_file"@,
            description: READ_FILE@,
            mutating: false,
            parameters: schema(
                map![
                    "path"@ => string_schema(WRITE_FILE_PATH@),
                ],
                seq!["path"@],
            ),
        },
    ]
}

/// Running code in the session's container.
fn sandbox_tools() -> (r: Vec<ToolDef>)
    ensures
        tool_views(r@) == sandbox_catalogue(),
{
    let tools = vec![
        ToolDef {
            name: "exec",
            description: EXEC,
            mutating: true,
            parameters: obj(
                Json::object()
                    .with("command", string_prop(EXEC_COMMAND))
                    .with("timeout_ms", typed_prop("integer", EXEC_TIMEOUT_MS)),
                &["command"],
            ),
        },
        ToolDef {
            name: "write_file",
            description: WRITE_FILE,
            mutating: true,
            parameters: obj(
                Json::object()
                    .with("path", string_prop(WRITE_FILE_PATH))
                    .with("contents", string_prop(WRITE_FILE_CONTENTS)),
                &["path", "contents"],
            ),
        },
        ToolDef {
            name: "read_file",
            description: READ_FILE,
            mutating: false,
            parameters: obj(
                Json::object()
                    .with("path", string_prop(WRITE_FILE_PATH)),
                &["path"],
            ),
        },
    ];
    assert(tool_views(tools@) =~= sandbox_catalogue());
    tools
}

/// Reading and changing the harness's own settings.
///
/// Writes land in the config file with its comments intact and are refused
/// unless the result would still load; nothing takes effect until a restart.
pub open spec fn configuration_catalogue() -> Seq<ToolView> {
    seq![
        ToolView {
            name: "list_config"@,
            description: LIST_CONFIG@,
            mutating: false,
            parameters: schema(
                map![
                    "prefix"@ => string_schema(LIST_CONFIG_PREFIX@),
                ],
                Seq::empty(),
            ),
        },
        ToolView {
            name: "read_config"@,
            description: READ_CONFIG@,
            mutating: false,
            parameters: schema(
                map![
                    "key"@ => string_schema(READ_CONFIG_KEY@),
                ],
                seq!["key"@],
            ),
        },
        ToolView {
            name: "set_config"@,
            description: SET_CONFIG@,
            mutating: true,
            parameters: schema(
                map![
                    "key"@ => string_schema(READ_CONFIG_KEY@),
                    "value"@ => string_schema(SET_CONFIG_VALUE@),
                ],
                seq!["key"@, "value"@],
            ),
        },
    ]
}

/// Reading and changing the harness's own settings.
///
/// Writes land in the config file with its comments intact and are refused
/// unless the result would still load; nothing takes effect until a restart.
fn configuration_tools() -> (r: Vec<ToolDef>)
    ensures
        tool_views(r@) == configuration_catalogue(),
{
    let tools = vec![
        ToolDef {
            name: "list_config",
            description: LIST_CONFIG,
            mutating: false,
            parameters: obj(
                Json::object()
                    .with("prefix", string_prop(LIST_CONFIG_PREFIX)),
                &[],
            ),
        },
        ToolDef {
            name: "read_config",
            description: READ_CONFIG,
            mutating: false,
            parameters: obj(
                Json::object()
                    .with("key", string_prop(READ_CONFIG_KEY)),
                &["key"],
            ),
        },
        ToolDef {
            name: "set_config",
            description: SET_CONFIG,
            mutating: true,
            parameters: obj(
                Json::object()
                    .with("key", string_prop(READ_CONFIG_KEY))
                    .with("value", string_prop(SET_CONFIG_VALUE)),
                &["key", "value"],
            ),
        },
    ];
    assert(tool_views(tools@) =~= configuration_catalogue());
    tools
}

/// Restarting the process.
pub open spec fn restart_catalogue() -> Seq<ToolView> {
    seq![
        ToolView {
            name: "restart_orchestrator"@,
            description: RESTART_ORCHESTRATOR@,
            mutating: true,
            parameters: schema(
                map![
                    "reason"@ => string_schema(RESTART_ORCHESTRATOR_REASON@),
                    "resume"@ => typed_schema("boolean"@, RESTART_ORCHESTRATOR_RESUME@),
                ],
                seq!["reason"@],
            ),
        },
    ]
}

/// Restarting the process.
fn restart_tools() -> (r: Vec<ToolDef>)
    ensures
        tool_views(r@) == restart_catalogue(),
{
    let tools = vec![
        ToolDef {
            name: "restart_orchestrator",
            description: RESTART_ORCHESTRATOR,
            mutating: true,
            parameters: obj(
                Json::object()
                    .with("reason", string_prop(RESTART_ORCHESTRATOR_REASON))
                    .with("resume", typed_prop("boolean", RESTART_ORCHESTRATOR_RESUME)),
                &["reason"],
            ),
        },
    ];
    assert(tool_views(tools@) =~= restart_catalogue());
    tools
}

/// Reading and writing files on the machine Genesis is running on, confined to
/// the roots named in configuration.
pub open spec fn filesystem_catalogue() -> Seq<ToolView> {
    seq![
        ToolView {
            name: "read_path"@,
            description: READ_PATH@,
            mutating: false,
            parameters: schema(
                map![
                    "path"@ => string_schema(READ_PATH_PATH@),
                ],
                seq!["path"@],
            ),
        },
        ToolView {
            name: "write_path"@,
            description: WRITE_PATH@,
            mutating: true,
            parameters: schema(
                map![
                    "path"@ => string_schema(WRITE_PATH_PATH@),
                    "contents"@ => string_schema(WRITE_PATH_CONTENTS@),
                ],
                seq!["path"@, "contents"@],
            ),
        },
        ToolView {
            name: "list_path"@,
            description: LIST_PATH@,
            mutating: false,
            parameters: schema(
                map![
                    "path"@ => string_schema(LIST_PATH_PATH@),
                ],
                seq!["path"@],
            ),
        },
        ToolView {
            name: "delete_path"@,
            description: DELETE_PATH@,
            mutating: true,
            parameters: schema(
                map![
                    "path"@ => string_schema(DELETE_PATH_PATH@),
                    "recursive"@ => typed_schema("boolean"@, DELETE_PATH_RECURSIVE@),
                ],
                seq!["path"@],
            ),
        },
    ]
}

/// Reading and writing files on the machine Genesis is running on, confined to
/// the roots named in configuration.
fn filesystem_tools() -> (r: Vec<ToolDef>)
    ensures
        tool_views(r@) == filesystem_catalogue(),
{
    let tools = vec![
        ToolDef {
            name: "read_path",
            description: READ_PATH,
            mutating: false,
            parameters: obj(
                Json::object()
                    .with("path", string_prop(READ_PATH_PATH)),
                &["path"],
            ),
        },
        ToolDef {
            name: "write_path",
            description: WRITE_PATH,
            mutating: true,
            parameters: obj(
                Json::object()
                    .with("path", string_prop(WRITE_PATH_PATH))
                    .with("contents", string_prop(WRITE_PATH_CONTENTS)),
                &["path", "contents"],
            ),
        },
        ToolDef {
            name: "list_path",
            description: LIST_PATH,
            mutating: false,
            parameters: obj(
                Json::object()
                    .with("path", string_prop(LIST_PATH_PATH)),
                &["path"],
            ),
        },
        ToolDef {
            name: "delete_path",
            description: DELETE_PATH,
            mutating: true,
            parameters: obj(
                Json::object()
                    .with("path", string_prop(DELETE_PATH_PATH))
                    .with("recursive", typed_prop("boolean", DELETE_PATH_RECURSIVE)),
                &["path"],
            ),
        },
    ];
    assert(tool_views(tools@) =~= filesystem_catalogue());
    tools
}

/// Shell sessions. A session keeps its working directory and shell state
/// between commands, which is the point of opening one rather than running a
/// series of unrelated commands.
pub open spec fn terminal_catalogue() -> Seq<ToolView> {
    seq![
        ToolView {
            name: "terminal_open"@,
            description: TERMINAL_OPEN@,
            mutating: true,
            parameters: schema(
                map![
                    "cwd"@ => string_schema(TERMINAL_OPEN_CWD@),
                ],
                Seq::empty(),
            ),
        },
        ToolView {
            name: "terminal_run"@,
            description: TERMINAL_RUN@,
            mutating: true,
            parameters: schema(
                map![
                    "id"@ => string_schema(TERMINAL_RUN_ID@),
                    "command"@ => string_schema(EXEC_COMMAND@),
                    "timeout_ms"@ => typed_schema("integer"@, TERMINAL_RUN_TIMEOUT_MS@),
                ],
                seq!["id"@, "command"@],
            ),
        },
        ToolView {
            name: "terminal_read"@,
            description: TERMINAL_READ@,
            mutating: false,
            parameters: schema(
                map![
                    "id"@ => string_schema(TERMINAL_READ_ID@),
                ],
                seq!["id"@],
            ),
        },
        ToolView {
            name: "terminal_close"@,
            description: TERMINAL_CLOSE@,
            mutating: true,
            parameters: schema(
                map![
                    "id"@ => string_schema(TERMINAL_READ_ID@),
                ],
                seq!["id"@],
            ),
        },
        ToolView {
            name: "terminal_list"@,
            description: TERMINAL_LIST@,
            mutating: false,
            parameters: schema(
                Map::empty(),
                Seq::empty(),
            ),
        },
    ]
}

/// Shell sessions. A session keeps its working directory and shell state
/// between commands, which is the point of opening one rather than running a
/// series of unrelated commands.
fn terminal_tools() -> (r: Vec<ToolDef>)
    ensures
        tool_views(r@) == terminal_catalogue(),
{
    let tools = vec![
        ToolDef {
            name: "terminal_open",
            description: TERMINAL_OPEN,
            mutating: true,
            parameters: obj(
                Json::object()
                    .with("cwd", string_prop(TERMINAL_OPEN_CWD)),
                &[],
            ),
        },
        ToolDef {
            name: "terminal_run",
            description: TERMINAL_RUN,
            mutating: true,
            parameters: obj(
                Json::object()
                    .with("id", string_prop(TERMINAL_RUN_ID))
                    .with("command", string_prop(EXEC_COMMAND))
                    .with("timeout_ms", typed_prop("integer", TERMINAL_RUN_TIMEOUT_MS)),
                &["id", "command"],
            ),
        },
        ToolDef {
            name: "terminal_read",
            description: TERMINAL_READ,
            mutating: false,
            parameters: obj(
                Json::object()
                    .with("id", string_prop(TERMINAL_READ_ID)),
                &["id"],
            ),
        },
        ToolDef {
            name: "terminal_close",
            description: TERMINAL_CLOSE,
            mutating: true,
            parameters: obj(
                Json::object()
                    .with("id", string_prop(TERMINAL_READ_ID)),
                &["id"],
            ),
        },
        ToolDef {
            name: "terminal_list",
            description: TERMINAL_LIST,
            mutating: false,
            parameters: obj(
                Json::object(),
                &[],
            ),
        },
    ];
    assert(tool_views(tools@) =~= terminal_catalogue());
    tools
}

/// Tools that edit the running system. Every mutating one rebuilds immediately
/// and returns the compiler's verdict in its result.
pub open spec fn devkit_catalogue() -> Seq<ToolView> {
    seq![
        ToolView {
            name: "new_tool"@,
            description: NEW_TOOL@,
            mutating: true,
            parameters: schema(
                map![
                    "name"@ => string_schema(NEW_TOOL_NAME@),
                    "description"@ => string_schema(NEW_TOOL_DESCRIPTION@),
                ],
                seq!["name"@, "description"@],
            ),
        },
        ToolView {
            name: "write_code"@,
            description: WRITE_CODE@,
            mutating: true,
            parameters: schema(
                map![
                    "target"@ => string_schema(TARGET@),
                    "path"@ => string_schema(WRITE_CODE_PATH@),
                    "contents"@ => string_schema(WRITE_PATH_CONTENTS@),
                ],
                seq!["target"@, "path"@, "contents"@],
            ),
        },
        ToolView {
            name: "patch_code"@,
            description: PATCH_CODE@,
            mutating: true,
            parameters: schema(
                map![
                    "target"@ => string_schema(TARGET@),
                    "path"@ => string_schema(WRITE_CODE_PATH@),
                    "old_text"@ => string_schema(PATCH_CODE_OLD_TEXT@),
                    "new_text"@ => string_schema(PATCH_CODE_NEW_TEXT@),
                ],
                seq!["target"@, "path"@, "old_text"@, "new_text"@],
            ),
        },
        ToolView {
            name: "add_dependency"@,
            description: ADD_DEPENDENCY@,
            mutating: true,
            parameters: schema(
                map![
                    "target"@ => string_schema(TARGET@),
                    "name"@ => string_schema(ADD_DEPENDENCY_NAME@),
                    "version"@ => string_schema(ADD_DEPENDENCY_VERSION@),
                    "features"@ => list_schema(ADD_DEPENDENCY_FEATURES@),
                    "default_features"@ => typed_schema("boolean"@, ADD_DEPENDENCY_DEFAULT_FEATURES@),
                ],
                seq!["target"@, "name"@, "version"@],
            ),
        },
        ToolView {
            name: "remove_dependency"@,
            description: REMOVE_DEPENDENCY@,
            mutating: true,
            parameters: schema(
                map![
                    "target"@ => string_schema(TARGET@),
                    "name"@ => string_schema(REMOVE_DEPENDENCY_NAME@),
                ],
                seq!["target"@, "name"@],
            ),
        },
        ToolView {
            name: "list_dependencies"@,
            description: LIST_DEPENDENCIES@,
            mutating: false,
            parameters: schema(
                map![
                    "target"@ => string_schema(TARGET@),
                ],
                seq!["target"@],
            ),
        },
        ToolView {
            name: "read_code"@,
            description: READ_CODE@,
            mutating: false,
            parameters: schema(
                map![
                    "target"@ => string_schema(TARGET@),
                    "path"@ => string_schema(READ_CODE_PATH@),
                ],
                seq!["target"@, "path"@],
            ),
        },
        ToolView {
            name: "list_code"@,
            description: LIST_CODE@,
            mutating: false,
            parameters: schema(
                map![
                    "target"@ => string_schema(TARGET@),
                ],
                seq!["target"@],
            ),
        },
        ToolView {
            name: "rollback"@,
            description: ROLLBACK@,
            mutating: true,
            parameters: schema(
                map![
                    "target"@ => string_schema(ROLLBACK_TARGET@),
                    "revision"@ => typed_schema("integer"@, ROLLBACK_REVISION@),
                ],
                seq!["target"@],
            ),
        },
        ToolView {
            name: "history"@,
            description: HISTORY@,
            mutating: false,
            parameters: schema(
                map![
                    "target"@ => string_schema(ROLLBACK_TARGET@),
                ],
                seq!["target"@],
            ),
        },
    ]
}

/// Tools that edit the running system. Every mutating one rebuilds immediately
/// and returns the compiler's verdict in its result.
fn devkit_tools() -> (r: Vec<ToolDef>)
    ensures
        tool_views(r@) == devkit_catalogue(),
{
    let tools = vec![
        ToolDef {
            name: "new_tool",
            description: NEW_TOOL,
            mutating: true,
            parameters: obj(
                Json::object()
                    .with("name", string_prop(NEW_TOOL_NAME))
                    .with("description", string_prop(NEW_TOOL_DESCRIPTION)),
                &["name", "description"],
            ),
        },
        ToolDef {
            name: "write_code",
            description: WRITE_CODE,
            mutating: true,
            parameters: obj(
                Json::object()
                    .with("target", string_prop(TARGET))
                    .with("path", string_prop(WRITE_CODE_PATH))
                    .with("contents", string_prop(WRITE_PATH_CONTENTS)),
                &["target", "path", "contents"],
            ),
        },
        ToolDef {
            name: "patch_code",
            description: PATCH_CODE,
            mutating: true,
            parameters: obj(
                Json::object()
                    .with("target", string_prop(TARGET))
                    .with("path", string_prop(WRITE_CODE_PATH))
                    .with("old_text", string_prop(PATCH_CODE_OLD_TEXT))
                    .with("new_text", string_prop(PATCH_CODE_NEW_TEXT)),
                &["target", "path", "old_text", "new_text"],
            ),
        },
        ToolDef {
            name: "add_dependency",
            description: ADD_DEPENDENCY,
            mutating: true,
            parameters: obj(
                Json::object()
                    .with("target", string_prop(TARGET))
                    .with("name", string_prop(ADD_DEPENDENCY_NAME))
                    .with("version", string_prop(ADD_DEPENDENCY_VERSION))
                    .with("features", list_prop(ADD_DEPENDENCY_FEATURES))
                    .with("default_features", typed_prop("boolean", ADD_DEPENDENCY_DEFAULT_FEATURES)),
                &["target", "name", "version"],
            ),
        },
        ToolDef {
            name: "remove_dependency",
            description: REMOVE_DEPENDENCY,
            mutating: true,
            parameters: obj(
                Json::object()
                    .with("target", string_prop(TARGET))
                    .with("name", string_prop(REMOVE_DEPENDENCY_NAME)),
                &["target", "name"],
            ),
        },
        ToolDef {
            name: "list_dependencies",
            description: LIST_DEPENDENCIES,
            mutating: false,
            parameters: obj(
                Json::object()
                    .with("target", string_prop(TARGET)),
                &["target"],
            ),
        },
        ToolDef {
            name: "read_code",
            description: READ_CODE,
            mutating: false,
            parameters: obj(
                Json::object()
                    .with("target", string_prop(TARGET))
                    .with("path", string_prop(READ_CODE_PATH)),
                &["target", "path"],
            ),
        },
        ToolDef {
            name: "list_code",
            description: LIST_CODE,
            mutating: false,
            parameters: obj(
                Json::object()
                    .with("target", string_prop(TARGET)),
                &["target"],
            ),
        },
        ToolDef {
            name: "rollback",
            description: ROLLBACK,
            mutating: true,
            parameters: obj(
                Json::object()
                    .with("target", string_prop(ROLLBACK_TARGET))
                    .with("revision", typed_prop("integer", ROLLBACK_REVISION)),
                &["target"],
            ),
        },
        ToolDef {
            name: "history",
            description: HISTORY,
            mutating: false,
            parameters: obj(
                Json::object()
                    .with("target", string_prop(ROLLBACK_TARGET)),
                &["target"],
            ),
        },
    ];
    assert(tool_views(tools@) =~= devkit_catalogue());
    tools
}

// --- what is offered --------------------------------------------------------

/// The mode of a list that has the given id, the first if there are several.
pub open spec fn mode_named(modes: Seq<ModeInfo>, id: Seq<char>) -> Option<ModeInfo>
    decreases modes.len(),
{
    if modes.len() == 0 {
        None
    } else if modes[0].id@ == id {
        Some(modes[0])
    } else {
        mode_named(modes.skip(1), id)
    }
}

/// Whether a mode withholds tools that change things. A mode that is not
/// configured does not.
pub open spec fn withholds(modes: Seq<ModeInfo>, mode: Seq<char>) -> bool {
    match mode_named(modes, mode) {
        Some(m) => m.read_only,
        None => false,
    }
}

/// Whether a mode withholds tools that change things.
///
/// Asked of the configured modes rather than hardcoded, so adding a read-only
/// mode is a configuration change and needs nothing here.
pub fn read_only(modes: &Vec<ModeInfo>, mode: &str) -> (r: bool)
    ensures
        r == withholds(modes@, mode@),
{
    let mut i: usize = 0;
    assert(modes@.skip(0) =~= modes@);
    while i < modes.len()
        invariant
            i <= modes@.len(),
            mode_named(modes@.skip(i as int), mode@) == mode_named(modes@, mode@),
        decreases modes@.len() - i,
    {
        assert(modes@.skip(i as int).skip(1) =~= modes@.skip(i + 1));
        if text::same(modes[i].id.as_str(), mode) {
            return modes[i].read_only;
        }
        i = i + 1;
    }
    false
}

/// The tools of a list that leave everything outside the conversation alone.
pub open spec fn harmless(tools: Seq<ToolView>) -> Seq<ToolView> {
    tools.filter(|t: ToolView| !t.mutating)
}

/// Every built-in that the switched-on capabilities give, before any mode has
/// its say.
pub open spec fn granted(access: Access) -> Seq<ToolView> {
    memory_catalogue() + (if access.sandbox {
        sandbox_catalogue()
    } else {
        Seq::empty()
    }) + (if access.devkit {
        devkit_catalogue()
    } else {
        Seq::empty()
    }) + (if access.filesystem {
        filesystem_catalogue()
    } else {
        Seq::empty()
    }) + (if access.terminal {
        terminal_catalogue()
    } else {
        Seq::empty()
    }) + configuration_catalogue() + (if access.restart {
        restart_catalogue()
    } else {
        Seq::empty()
    })
}

/// Every built-in offered in a mode: in a read-only mode the tools that would
/// change something are simply not offered, rather than offered and then
/// refused.
pub open spec fn offered(mode: Seq<char>, access: Access, modes: Seq<ModeInfo>) -> Seq<ToolView> {
    if withholds(modes, mode) {
        harmless(granted(access))
    } else {
        granted(access)
    }
}

fn extend(tools: &mut Vec<ToolDef>, more: Vec<ToolDef>)
    ensures
        tool_views(final(tools)@) == tool_views(old(tools)@) + tool_views(more@),
{
    let mut more = more;
    let ghost a = tools@;
    let ghost b = more@;
    tools.append(&mut more);
    assert(tool_views(a + b) =~= tool_views(a) + tool_views(b));
}

/// Every tool the agent can call in this mode.
pub fn available(mode: &str, access: Access, modes: &Vec<ModeInfo>) -> (r: Vec<ToolDef>)
    ensures
        tool_views(r@) == offered(mode@, access, modes@),
{
    let mut tools = memory_tools();
    if access.sandbox {
        extend(&mut tools, sandbox_tools());
    }
    if access.devkit {
        extend(&mut tools, devkit_tools());
    }
    if access.filesystem {
        extend(&mut tools, filesystem_tools());
    }
    if access.terminal {
        extend(&mut tools, terminal_tools());
    }
    extend(&mut tools, configuration_tools());
    if access.restart {
        extend(&mut tools, restart_tools());
    }
    assert(tool_views(tools@) =~= granted(access));
    if read_only(modes, mode) {
        tools = keep_harmless(tools);
    }
    tools
}

fn keep_harmless(tools: Vec<ToolDef>) -> (r: Vec<ToolDef>)
    ensures
        tool_views(r@) == harmless(tool_views(tools@)),
{
    let ghost all = tool_views(tools@);
    let mut left = tools;
    let mut back: Vec<ToolDef> = Vec::new();
    let ghost n = left@.len();
    while left.len() > 0
        invariant
            left@.len() + back@.len() == n == all.len(),
            tool_views(left@) == all.take(left@.len() as int),
            forall|i: int| 0 <= i < back@.len() ==> (#[trigger] back@[i])@ == all[n - 1 - i],
        decreases left@.len(),
    {
        let ghost had = left@;
        let tool = left.pop().unwrap();
        assert(tool_views(had)[left@.len() as int] == tool@);
        assert(tool_views(left@) =~= all.take(left@.len() as int));
        back.push(tool);
    }
    let mut out: Vec<ToolDef> = Vec::new();
    assert(all.take(0) =~= Seq::<ToolView>::empty());
    assert(harmless(all.take(0)) =~= Seq::<ToolView>::empty()) by {
        reveal(Seq::filter);
    }
    while back.len() > 0
        invariant
            back@.len() <= n == all.len(),
            forall|i: int| 0 <= i < back@.len() ==> (#[trigger] back@[i])@ == all[n - 1 - i],
            tool_views(out@) == harmless(all.take(n - back@.len())),
        decreases back@.len(),
    {
        let ghost waiting = back@;
        let ghost had = out@;
        let tool = back.pop().unwrap();
        proof {
            let at = n - back@.len() - 1;
            assert(waiting[back@.len() as int]@ == all[at]);
            assert(all.take(at + 1) =~= all.take(at).push(tool@));
            reveal(Seq::filter);
            assert(all.take(at).push(tool@).drop_last() =~= all.take(at));
            assert forall|i: int| 0 <= i < back@.len() implies (#[trigger] back@[i])@ == all[n - 1
                - i] by {
                assert(back@[i] == waiting[i]);
            }
        }
        if !tool.mutating {
            out.push(tool);
            assert(tool_views(out@) =~= tool_views(had).push(tool@));
        }
    }
    assert(all.take(n as int) =~= all);
    out
}

/// Every built-in the agent knows about, whether or not it is currently
/// offered.
///
/// What is offered already has the sandbox, the dev kit, the files and the
/// terminals when they are switched on; this adds them back when they are not, so
/// a name is still judged by its own declaration in a configuration where it is
/// never offered.
pub open spec fn known(access: Access, modes: Seq<ModeInfo>) -> Seq<ToolView> {
    offered(DEFAULT_MODE@, access, modes) + (if access.sandbox {
        Seq::empty()
    } else {
        sandbox_catalogue()
    }) + (if access.devkit {
        Seq::empty()
    } else {
        devkit_catalogue()
    }) + (if access.filesystem {
        Seq::empty()
    } else {
        filesystem_catalogue()
    }) + (if access.terminal {
        Seq::empty()
    } else {
        terminal_catalogue()
    })
}

fn all_builtins(access: Access, modes: &Vec<ModeInfo>) -> (r: Vec<ToolDef>)
    ensures
        tool_views(r@) == known(access, modes@),
{
    let mut tools = available(DEFAULT_MODE, access, modes);
    if !access.sandbox {
        extend(&mut tools, sandbox_tools());
    }
    if !access.devkit {
        extend(&mut tools, devkit_tools());
    }
    if !access.filesystem {
        extend(&mut tools, filesystem_tools());
    }
    if !access.terminal {
        extend(&mut tools, terminal_tools());
    }
    assert(tool_views(tools@) =~= known(access, modes@));
    tools
}

/// The tool of a list that has the given name, the first if there are several.
pub open spec fn tool_named(tools: Seq<ToolView>, name: Seq<char>) -> Option<ToolView>
    decreases tools.len(),
{
    if tools.len() == 0 {
        None
    } else if tools[0].name == name {
        Some(tools[0])
    } else {
        tool_named(tools.skip(1), name)
    }
}

/// Whether a name changes something outside the conversation. Built-ins are
/// judged by their own declarations; anything else is a hot-loaded component,
/// whose behaviour is opaque and so treated as mutating.
pub open spec fn changes_things(
    name: Seq<char>,
    access: Access,
    modes: Seq<ModeInfo>,
) -> bool {
    match tool_named(known(access, modes), name) {
        Some(tool) => tool.mutating,
        None => true,
    }
}

/// Whether a tool name changes something outside the conversation.
pub fn is_mutating(name: &str, access: Access, modes: &Vec<ModeInfo>) -> (r: bool)
    ensures
        r == changes_things(name@, access, modes@),
{
    let tools = all_builtins(access, modes);
    let ghost all = known(access, modes@);
    let mut i: usize = 0;
    assert(all.skip(0) =~= all);
    while i < tools.len()
        invariant
            i <= tools@.len(),
            tool_views(tools@) == all,
            all == known(access, modes@),
            tool_named(all.skip(i as int), name@) == tool_named(all, name@),
        decreases tools@.len() - i,
    {
        assert(all.skip(i as int).skip(1) =~= all.skip(i + 1));
        assert(all[i as int] == tools@[i as int]@);
        if text::same(tools[i].name, name) {
            return tools[i].mutating;
        }
        i = i + 1;
    }
    true
}

// --- how the tools are described --------------------------------------------

/// A built-in described for a human reader: tagged so the panel can group it,
/// and tagged again if a read-only mode would withhold it.
pub open spec fn builtin_manifest(t: ToolView) -> ManifestView {
    ManifestView {
        name: t.name,
        description: t.description,
        args_schema_json: json::compact_text(t.parameters),
        capabilities: if t.mutating {
            seq!["built-in"@, "mutating"@]
        } else {
            seq!["built-in"@]
        },
    }
}

/// A hot-loaded component's own manifest, tagged as one.
pub open spec fn component_manifest(m: ManifestView) -> ManifestView {
    ManifestView { capabilities: m.capabilities.push("component"@), ..m }
}

/// Every tool offered in a mode, described for a human reader.
pub open spec fn panel(
    mode: Seq<char>,
    access: Access,
    modes: Seq<ModeInfo>,
    registry: Seq<ManifestView>,
) -> Seq<ManifestView> {
    let builtins = offered(mode, access, modes).map_values(|t: ToolView| builtin_manifest(t));
    if withholds(modes, mode) {
        builtins
    } else {
        builtins + registry.map_values(|m: ManifestView| component_manifest(m))
    }
}

/// Every tool offered in this mode, described for a human reader rather than
/// for the model. Built-ins are tagged so the panel can group them, and
/// mutating ones are tagged so it can explain what a read-only mode withholds.
pub fn manifests(
    mode: &str,
    access: Access,
    modes: &Vec<ModeInfo>,
    registry: &Vec<ToolManifest>,
) -> (r: Vec<ToolManifest>)
    ensures
        manifest_views(r@) == panel(mode@, access, modes@, manifest_views(registry@)),
{
    let tools = available(mode, access, modes);
    let ghost builtins = tool_views(tools@).map_values(|t: ToolView| builtin_manifest(t));
    let mut out: Vec<ToolManifest> = Vec::new();
    for i in 0..tools.len()
        invariant
            builtins == tool_views(tools@).map_values(|t: ToolView| builtin_manifest(t)),
            manifest_views(out@) == builtins.take(i as int),
    {
        let ghost had = out@;
        let mut capabilities: Vec<String> = Vec::new();
        capabilities.push("built-in".to_owned());
        if tools[i].mutating {
            capabilities.push("mutating".to_owned());
        }
        let manifest = ToolManifest {
            name: tools[i].name.to_owned(),
            description: tools[i].description.to_owned(),
            args_schema_json: tools[i].parameters.to_text(),
            capabilities,
        };
        proof {
            let t = tools@[i as int]@;
            assert(tool_views(tools@)[i as int] == t);
            assert(texts(capabilities@) =~= builtin_manifest(t).capabilities);
            assert(manifest@ == builtin_manifest(t));
        }
        out.push(manifest);
        assert(manifest_views(out@) =~= manifest_views(had).push(manifest@));
        assert(builtins.take(i + 1) =~= builtins.take(i as int).push(builtins[i as int]));
    }
    assert(builtins.take(tools@.len() as int) =~= builtins);
    if !read_only(modes, mode) {
        let ghost loaded = manifest_views(registry@).map_values(
            |m: ManifestView| component_manifest(m),
        );
        assert(builtins + loaded.take(0) =~= builtins);
        for i in 0..registry.len()
            invariant
                loaded == manifest_views(registry@).map_values(
                    |m: ManifestView| component_manifest(m),
                ),
                manifest_views(out@) == builtins + loaded.take(i as int),
        {
            let ghost had = out@;
            let mut manifest = registry[i].copy();
            let ghost caps = manifest.capabilities@;
            let tag = "component".to_owned();
            manifest.capabilities.push(tag);
            proof {
                text::lemma_texts_push(caps, tag);
                assert(manifest_views(registry@)[i as int] == registry@[i as int]@);
                assert(manifest@ == loaded[i as int]);
            }
            out.push(manifest);
            assert(manifest_views(out@) =~= manifest_views(had).push(manifest@));
            assert(builtins + loaded.take(i + 1) =~= (builtins + loaded.take(i as int)).push(
                loaded[i as int],
            ));
        }
        assert(loaded.take(registry@.len() as int) =~= loaded);
    }
    out
}

/// A tool in the format the chat completions API expects.
pub open spec fn definition(
    name: Seq<char>,
    description: Seq<char>,
    parameters: JsonView,
) -> JsonView {
    JsonView::Object(
        map![
            "type"@ => JsonView::Text("function"@),
            "function"@ => JsonView::Object(map![
                "name"@ => JsonView::Text(name),
                "description"@ => JsonView::Text(description),
                "parameters"@ => parameters,
            ]),
        ],
    )
}

/// The parameters of a hot-loaded component: the schema it declares, or that
/// of an object without properties where its declaration is not JSON.
pub open spec fn declared_parameters(schema_json: Seq<char>) -> JsonView {
    match json::parsed(schema_json) {
        Ok(parameters) => parameters,
        Err(_) => schema(Map::empty(), Seq::empty()),
    }
}

/// The definitions the model is sent. Hot-loaded components are opaque: a
/// read-only mode cannot tell what they do, so it does not offer them.
pub open spec fn definition_list(
    mode: Seq<char>,
    access: Access,
    modes: Seq<ModeInfo>,
    registry: Seq<ManifestView>,
) -> Seq<JsonView> {
    let builtins = offered(mode, access, modes).map_values(
        |t: ToolView| definition(t.name, t.description, t.parameters),
    );
    if withholds(modes, mode) {
        builtins
    } else {
        builtins + registry.map_values(
            |m: ManifestView|
                definition(m.name, m.description, declared_parameters(m.args_schema_json)),
        )
    }
}

fn define(name: &str, description: &str, parameters: Json) -> (r: Json)
    ensures
        r@ == definition(name@, description@, parameters@),
{
    Json::object().with("type", Json::text("function")).with(
        "function",
        Json::object().with("name", Json::text(name)).with(
            "description",
            Json::text(description),
        ).with("parameters", parameters),
    )
}

/// The parameters a component declares, given what its schema parsed to.
pub fn parameters_or_none(schema: Result<Json, String>) -> (r: Json)
    ensures
        r@ == match schema {
            Ok(parameters) => parameters@,
            Err(_) => self::schema(Map::empty(), Seq::empty()),
        },
{
    match schema {
        Ok(parameters) => parameters,
        Err(_) => {
            obj(Json::object(), &[])
        },
    }
}

/// Tool definitions in the format the chat completions API expects, including
/// any hot-loaded tool components the orchestrator has registered.
pub fn definitions(
    mode: &str,
    access: Access,
    modes: &Vec<ModeInfo>,
    registry: &Vec<ToolManifest>,
) -> (r: Vec<Json>)
    ensures
        trees(r@) == definition_list(mode@, access, modes@, manifest_views(registry@)),
{
    let tools = available(mode, access, modes);
    let ghost builtins = tool_views(tools@).map_values(
        |t: ToolView| definition(t.name, t.description, t.parameters),
    );
    let mut out: Vec<Json> = Vec::new();
    for i in 0..tools.len()
        invariant
            builtins == tool_views(tools@).map_values(
                |t: ToolView| definition(t.name, t.description, t.parameters),
            ),
            trees(out@) == builtins.take(i as int),
    {
        let ghost had = out@;
        let item = define(tools[i].name, tools[i].description, tools[i].parameters.copy());
        out.push(item);
        proof {
            json::lemma_trees_push(had, item);
            assert(tool_views(tools@)[i as int] == tools@[i as int]@);
            assert(builtins.take(i + 1) =~= builtins.take(i as int).push(builtins[i as int]));
        }
    }
    assert(builtins.take(tools@.len() as int) =~= builtins);
    if read_only(modes, mode) {
        return out;
    }
    let ghost loaded = manifest_views(registry@).map_values(
        |m: ManifestView|
            definition(m.name, m.description, declared_parameters(m.args_schema_json)),
    );
    assert(builtins + loaded.take(0) =~= builtins);
    for i in 0..registry.len()
        invariant
            loaded == manifest_views(registry@).map_values(
                |m: ManifestView|
                    definition(m.name, m.description, declared_parameters(m.args_schema_json)),
            ),
            trees(out@) == builtins + loaded.take(i as int),
    {
        let ghost had = out@;
        let parameters = parameters_or_none(
            json::parse(registry[i].args_schema_json.as_str()),
        );
        let item = define(registry[i].name.as_str(), registry[i].description.as_str(), parameters);
        out.push(item);
        proof {
            json::lemma_trees_push(had, item);
            assert(manifest_views(registry@)[i as int] == registry@[i as int]@);
            assert(builtins + loaded.take(i + 1) =~= (builtins + loaded.take(i as int)).push(
                loaded[i as int],
            ));
        }
    }
    assert(loaded.take(registry@.len() as int) =~= loaded);
    out
}

// --- laws -------------------------------------------------------------------

/// A read-only mode offers no built-in that changes something.
pub proof fn law_read_only_offers_nothing_mutating(
    mode: Seq<char>,
    access: Access,
    modes: Seq<ModeInfo>,
    i: int,
)
    requires
        withholds(modes, mode),
        0 <= i < offered(mode, access, modes).len(),
    ensures
        !offered(mode, access, modes)[i].mutating,
{
    let all = granted(access);
    all.lemma_filter_pred(|t: ToolView| !t.mutating, i);
}

/// A read-only mode shows and defines no hot-loaded component at all.
pub proof fn law_read_only_hides_components(
    mode: Seq<char>,
    access: Access,
    modes: Seq<ModeInfo>,
    registry: Seq<ManifestView>,
)
    requires
        withholds(modes, mode),
    ensures
        panel(mode, access, modes, registry) == panel(mode, access, modes, Seq::empty()),
        definition_list(mode, access, modes, registry) == definition_list(
            mode,
            access,
            modes,
            Seq::empty(),
        ),
{
}

// --- which name is which ----------------------------------------------------

/// What tells the names of the built-ins apart: how long a name is, how it
/// begins, and the character before its last.
spec fn looks(name: Seq<char>, len: nat, first: char, late: char) -> bool {
    name.len() == len && name[0] == first && name[len - 2] == late
}

/// Where a built-in stands among all of them, by its name.
spec fn rank(name: Seq<char>) -> int {
    if looks(name, 8, 'r', 'e') {
        // remember
        0
    } else if looks(name, 6, 'r', 'l') {
        // recall
        1
    } else if looks(name, 4, 'e', 'e') {
        // exec
        2
    } else if looks(name, 10, 'w', 'l') {
        // write_file
        3
    } else if looks(name, 9, 'r', 'l') {
        // read_file
        4
    } else if looks(name, 8, 'n', 'o') {
        // new_tool
        5
    } else if looks(name, 10, 'w', 'd') {
        // write_code
        6
    } else if looks(name, 10, 'p', 'd') {
        // patch_code
        7
    } else if looks(name, 14, 'a', 'c') {
        // add_dependency
        8
    } else if looks(name, 17, 'r', 'c') {
        // remove_dependency
        9
    } else if looks(name, 17, 'l', 'e') {
        // list_dependencies
        10
    } else if looks(name, 9, 'r', 'd') {
        // read_code
        11
    } else if looks(name, 9, 'l', 'd') {
        // list_code
        12
    } else if looks(name, 8, 'r', 'c') {
        // rollback
        13
    } else if looks(name, 7, 'h', 'r') {
        // history
        14
    } else if looks(name, 9, 'r', 't') {
        // read_path
        15
    } else if looks(name, 10, 'w', 't') {
        // write_path
        16
    } else if looks(name, 9, 'l', 't') {
        // list_path
        17
    } else if looks(name, 11, 'd', 't') {
        // delete_path
        18
    } else if looks(name, 13, 't', 'e') {
        // terminal_open
        19
    } else if looks(name, 12, 't', 'u') {
        // terminal_run
        20
    } else if looks(name, 13, 't', 'a') {
        // terminal_read
        21
    } else if looks(name, 14, 't', 's') {
        // terminal_close
        22
    } else if looks(name, 13, 't', 's') {
        // terminal_list
        23
    } else if looks(name, 11, 'l', 'i') {
        // list_config
        24
    } else if looks(name, 11, 'r', 'i') {
        // read_config
        25
    } else if looks(name, 10, 's', 'i') {
        // set_config
        26
    } else if looks(name, 20, 'r', 'o') {
        // restart_orchestrator
        27
    } else {
        -1
    }
}

/// Whether the names of a list are those from one place on up to another, in
/// that order.
spec fn spanned(tools: Seq<ToolView>, lo: int, hi: int) -> bool {
    &&& lo <= hi
    &&& forall|i: int| 0 <= i < tools.len() ==> lo <= rank((#[trigger] tools[i]).name) < hi
    &&& forall|i: int, j: int|
        0 <= i < j < tools.len() ==> rank((#[trigger] tools[i]).name) < rank(
            (#[trigger] tools[j]).name,
        )
}

proof fn lemma_spanned_add(a: Seq<ToolView>, b: Seq<ToolView>, lo: int, mid: int, hi: int)
    requires
        spanned(a, lo, mid),
        spanned(b, mid, hi),
    ensures
        spanned(a + b, lo, hi),
{
    let all = a + b;
    assert forall|i: int| 0 <= i < all.len() implies lo <= rank((#[trigger] all[i]).name) < hi by {
        if i < a.len() {
            assert(all[i] == a[i]);
        } else {
            assert(all[i] == b[i - a.len()]);
        }
    }
    assert forall|i: int, j: int| 0 <= i < j < all.len() implies rank((#[trigger] all[i]).name)
        < rank((#[trigger] all[j]).name) by {
        if j < a.len() {
            assert(all[i] == a[i] && all[j] == a[j]);
        } else if i < a.len() {
            assert(all[i] == a[i] && all[j] == b[j - a.len()]);
        } else {
            assert(all[i] == b[i - a.len()] && all[j] == b[j - a.len()]);
        }
    }
}

proof fn lemma_spanned_harmless(tools: Seq<ToolView>, lo: int, hi: int)
    requires
        spanned(tools, lo, hi),
    ensures
        spanned(harmless(tools), lo, hi),
        forall|t: ToolView| harmless(tools).contains(t) ==> tools.contains(t),
        forall|t: ToolView| tools.contains(t) && !t.mutating ==> harmless(tools).contains(t),
    decreases tools.len(),
{
    reveal(Seq::filter);
    if tools.len() > 0 {
        let rest = tools.drop_last();
        let last = tools.last();
        assert forall|i: int| 0 <= i < rest.len() implies lo <= rank((#[trigger] rest[i]).name)
            < hi by {
            assert(rest[i] == tools[i]);
        }
        assert forall|i: int, j: int| 0 <= i < j < rest.len() implies rank(
            (#[trigger] rest[i]).name,
        ) < rank((#[trigger] rest[j]).name) by {
            assert(rest[i] == tools[i] && rest[j] == tools[j]);
        }
        lemma_spanned_harmless(rest, lo, hi);
        let had = harmless(rest);
        let all = harmless(tools);
        assert forall|t: ToolView| all.contains(t) implies tools.contains(t) by {
            if had.contains(t) {
                assert(rest.contains(t));
                let i = choose|i: int| 0 <= i < rest.len() && rest[i] == t;
                assert(tools[i] == t);
            } else {
                let i = choose|i: int| 0 <= i < all.len() && all[i] == t;
                if i < had.len() {
                    assert(had[i] == t);
                }
                assert(tools[tools.len() - 1] == t);
            }
        }
        assert forall|t: ToolView| tools.contains(t) && !t.mutating implies all.contains(t) by {
            let i = choose|i: int| 0 <= i < tools.len() && tools[i] == t;
            if i < rest.len() {
                assert(rest[i] == t);
                assert(had.contains(t));
                let k = choose|k: int| 0 <= k < had.len() && had[k] == t;
                assert(all[k] == t);
            } else {
                assert(all[all.len() - 1] == t);
            }
        }
        if !last.mutating {
            assert(all == had.push(last));
            assert(tools[tools.len() - 1] == last);
            assert forall|i: int, j: int| 0 <= i < j < all.len() implies rank(
                (#[trigger] all[i]).name,
            ) < rank((#[trigger] all[j]).name) by {
                if j == had.len() {
                    assert(had[i] == all[i]);
                    assert(had.contains(had[i]));
                    assert(rest.contains(had[i]));
                    let k = choose|k: int| 0 <= k < rest.len() && rest[k] == had[i];
                    assert(tools[k] == rest[k]);
                } else {
                    assert(all[i] == had[i] && all[j] == had[j]);
                }
            }
            assert forall|i: int| 0 <= i < all.len() implies lo <= rank((#[trigger] all[i]).name)
                < hi by {
                if i < had.len() {
                    assert(all[i] == had[i]);
                }
            }
        }
    }
}

proof fn lemma_memory_names()
    ensures
        spanned(memory_catalogue(), 0, 2),
        memory_catalogue().len() == 2,
        forall|i: int| 0 <= i < 2 ==> rank((#[trigger] memory_catalogue()[i]).name) == 0 + i,
{
    let all = memory_catalogue();
    reveal_strlit("remember");
    assert(rank(all[0].name) == 0);
    reveal_strlit("recall");
    assert(rank(all[1].name) == 1);
}

proof fn lemma_sandbox_names()
    ensures
        spanned(sandbox_catalogue(), 2, 5),
        sandbox_catalogue().len() == 3,
        forall|i: int| 0 <= i < 3 ==> rank((#[trigger] sandbox_catalogue()[i]).name) == 2 + i,
{
    let all = sandbox_catalogue();
    reveal_strlit("exec");
    assert(rank(all[0].name) == 2);
    reveal_strlit("write_file");
    assert(rank(all[1].name) == 3);
    reveal_strlit("read_file");
    assert(rank(all[2].name) == 4);
}

proof fn lemma_devkit_names()
    ensures
        spanned(devkit_catalogue(), 5, 15),
        devkit_catalogue().len() == 10,
        forall|i: int| 0 <= i < 10 ==> rank((#[trigger] devkit_catalogue()[i]).name) == 5 + i,
{
    let all = devkit_catalogue();
    reveal_strlit("new_tool");
    assert(rank(all[0].name) == 5);
    reveal_strlit("write_code");
    assert(rank(all[1].name) == 6);
    reveal_strlit("patch_code");
    assert(rank(all[2].name) == 7);
    reveal_strlit("add_dependency");
    assert(rank(all[3].name) == 8);
    reveal_strlit("remove_dependency");
    assert(rank(all[4].name) == 9);
    reveal_strlit("list_dependencies");
    assert(rank(all[5].name) == 10);
    reveal_strlit("read_code");
    assert(rank(all[6].name) == 11);
    reveal_strlit("list_code");
    assert(rank(all[7].name) == 12);
    reveal_strlit("rollback");
    assert(rank(all[8].name) == 13);
    reveal_strlit("history");
    assert(rank(all[9].name) == 14);
}

proof fn lemma_filesystem_names()
    ensures
        spanned(filesystem_catalogue(), 15, 19),
        filesystem_catalogue().len() == 4,
        forall|i: int| 0 <= i < 4 ==> rank((#[trigger] filesystem_catalogue()[i]).name) == 15 + i,
{
    let all = filesystem_catalogue();
    reveal_strlit("read_path");
    assert(rank(all[0].name) == 15);
    reveal_strlit("write_path");
    assert(rank(all[1].name) == 16);
    reveal_strlit("list_path");
    assert(rank(all[2].name) == 17);
    reveal_strlit("delete_path");
    assert(rank(all[3].name) == 18);
}

proof fn lemma_terminal_names()
    ensures
        spanned(terminal_catalogue(), 19, 24),
        terminal_catalogue().len() == 5,
        forall|i: int| 0 <= i < 5 ==> rank((#[trigger] terminal_catalogue()[i]).name) == 19 + i,
{
    let all = terminal_catalogue();
    reveal_strlit("terminal_open");
    assert(rank(all[0].name) == 19);
    reveal_strlit("terminal_run");
    assert(rank(all[1].name) == 20);
    reveal_strlit("terminal_read");
    assert(rank(all[2].name) == 21);
    reveal_strlit("terminal_close");
    assert(rank(all[3].name) == 22);
    reveal_strlit("terminal_list");
    assert(rank(all[4].name) == 23);
}

proof fn lemma_configuration_names()
    ensures
        spanned(configuration_catalogue(), 24, 27),
        configuration_catalogue().len() == 3,
        forall|i: int| 0 <= i < 3 ==> rank((#[trigger] configuration_catalogue()[i]).name) == 24 + i,
{
    let all = configuration_catalogue();
    reveal_strlit("list_config");
    assert(rank(all[0].name) == 24);
    reveal_strlit("read_config");
    assert(rank(all[1].name) == 25);
    reveal_strlit("set_config");
    assert(rank(all[2].name) == 26);
}

proof fn lemma_restart_names()
    ensures
        spanned(restart_catalogue(), 27, 28),
        restart_catalogue().len() == 1,
        forall|i: int| 0 <= i < 1 ==> rank((#[trigger] restart_catalogue()[i]).name) == 27 + i,
{
    let all = restart_catalogue();
    reveal_strlit("restart_orchestrator");
    assert(rank(all[0].name) == 27);
}

spec fn part(on: bool, tools: Seq<ToolView>) -> Seq<ToolView> {
    if on {
        tools
    } else {
        Seq::empty()
    }
}

proof fn lemma_granted_names(access: Access)
    ensures
        spanned(granted(access), 0, 28),
        forall|t: ToolView|
            granted(access).contains(t) <==> memory_catalogue().contains(t) || (access.sandbox
                && sandbox_catalogue().contains(t)) || (access.devkit
                && devkit_catalogue().contains(t)) || (access.filesystem
                && filesystem_catalogue().contains(t)) || (access.terminal
                && terminal_catalogue().contains(t)) || configuration_catalogue().contains(t) || (
            access.restart && restart_catalogue().contains(t)),
{
    lemma_memory_names();
    lemma_sandbox_names();
    lemma_devkit_names();
    lemma_filesystem_names();
    lemma_terminal_names();
    lemma_configuration_names();
    lemma_restart_names();
    let a = memory_catalogue();
    let b = part(access.sandbox, sandbox_catalogue());
    let c = part(access.devkit, devkit_catalogue());
    let d = part(access.filesystem, filesystem_catalogue());
    let e = part(access.terminal, terminal_catalogue());
    let f = configuration_catalogue();
    let g = part(access.restart, restart_catalogue());
    lemma_spanned_add(a, b, 0, 2, 5);
    lemma_spanned_add(a + b, c, 0, 5, 15);
    lemma_spanned_add(a + b + c, d, 0, 15, 19);
    lemma_spanned_add(a + b + c + d, e, 0, 19, 24);
    lemma_spanned_add(a + b + c + d + e, f, 0, 24, 27);
    lemma_spanned_add(a + b + c + d + e + f, g, 0, 27, 28);
    assert(granted(access) == a + b + c + d + e + f + g);
    assert forall|t: ToolView|
        granted(access).contains(t) <==> (a.contains(t) || b.contains(t) || c.contains(t)
            || d.contains(t) || e.contains(t) || f.contains(t) || g.contains(t)) by {
        lemma_contains_add(a, b, t);
        lemma_contains_add(a + b, c, t);
        lemma_contains_add(a + b + c, d, t);
        lemma_contains_add(a + b + c + d, e, t);
        lemma_contains_add(a + b + c + d + e, f, t);
        lemma_contains_add(a + b + c + d + e + f, g, t);
    }
}

proof fn lemma_contains_add(a: Seq<ToolView>, b: Seq<ToolView>, t: ToolView)
    ensures
        (a + b).contains(t) == (a.contains(t) || b.contains(t)),
{
    let all = a + b;
    if a.contains(t) {
        let i = choose|i: int| 0 <= i < a.len() && a[i] == t;
        assert(all[i] == t);
    }
    if b.contains(t) {
        let i = choose|i: int| 0 <= i < b.len() && b[i] == t;
        assert(all[a.len() + i] == t);
    }
    if all.contains(t) {
        let i = choose|i: int| 0 <= i < all.len() && all[i] == t;
        if i < a.len() {
            assert(a[i] == t);
        } else {
            assert(b[i - a.len()] == t);
        }
    }
}

/// No two built-ins on offer share a name, in any mode.
pub proof fn law_tool_names_are_distinct(
    mode: Seq<char>,
    access: Access,
    modes: Seq<ModeInfo>,
    i: int,
    j: int,
)
    requires
        0 <= i < j < offered(mode, access, modes).len(),
    ensures
        offered(mode, access, modes)[i].name != offered(mode, access, modes)[j].name,
{
    lemma_granted_names(access);
    lemma_spanned_harmless(granted(access), 0, 28);
    let all = offered(mode, access, modes);
    assert(rank(all[i].name) < rank(all[j].name));
}

/// A read-only mode offers what any other does, in the same order, with exactly
/// the tools that change something left out.
pub proof fn law_read_only_leaves_out_what_changes_things(
    quiet: Seq<char>,
    other: Seq<char>,
    access: Access,
    modes: Seq<ModeInfo>,
)
    requires
        withholds(modes, quiet),
        !withholds(modes, other),
    ensures
        offered(quiet, access, modes) == harmless(offered(other, access, modes)),
{
}

/// Whether a list has a tool of a name.
pub open spec fn has_tool(tools: Seq<ToolView>, name: Seq<char>) -> bool {
    exists|i: int| 0 <= i < tools.len() && (#[trigger] tools[i]).name == name
}

/// Notes can always be kept and read, and settings can always be read.
pub proof fn law_some_tools_are_always_offered(
    mode: Seq<char>,
    access: Access,
    modes: Seq<ModeInfo>,
)
    ensures
        has_tool(offered(mode, access, modes), "remember"@),
        has_tool(offered(mode, access, modes), "recall"@),
        has_tool(offered(mode, access, modes), "list_config"@),
        has_tool(offered(mode, access, modes), "read_config"@),
{
    lemma_granted_names(access);
    lemma_spanned_harmless(granted(access), 0, 28);
    let all = offered(mode, access, modes);
    let a = memory_catalogue();
    let c = configuration_catalogue();
    assert(a.contains(a[0]) && a.contains(a[1]) && c.contains(c[0]) && c.contains(c[1]));
    assert(all.contains(a[0]) && all.contains(a[1]) && all.contains(c[0]) && all.contains(c[1]));
    lemma_has_tool(all, a[0]);
    lemma_has_tool(all, a[1]);
    lemma_has_tool(all, c[0]);
    lemma_has_tool(all, c[1]);
}

proof fn lemma_has_tool(tools: Seq<ToolView>, t: ToolView)
    requires
        tools.contains(t),
    ensures
        has_tool(tools, t.name),
{
    let i = choose|i: int| 0 <= i < tools.len() && tools[i] == t;
    assert(tools[i].name == t.name);
}

/// A tool that needs a capability is offered only where the host has it.
pub proof fn law_tools_need_their_capability(
    mode: Seq<char>,
    access: Access,
    modes: Seq<ModeInfo>,
    i: int,
)
    requires
        0 <= i < offered(mode, access, modes).len(),
    ensures
        has_tool(sandbox_catalogue(), offered(mode, access, modes)[i].name) ==> access.sandbox,
        has_tool(devkit_catalogue(), offered(mode, access, modes)[i].name) ==> access.devkit,
        has_tool(filesystem_catalogue(), offered(mode, access, modes)[i].name)
            ==> access.filesystem,
        has_tool(terminal_catalogue(), offered(mode, access, modes)[i].name) ==> access.terminal,
        has_tool(restart_catalogue(), offered(mode, access, modes)[i].name) ==> access.restart,
{
    lemma_granted_names(access);
    lemma_spanned_harmless(granted(access), 0, 28);
    lemma_memory_names();
    lemma_sandbox_names();
    lemma_devkit_names();
    lemma_filesystem_names();
    lemma_terminal_names();
    lemma_configuration_names();
    lemma_restart_names();
    let t = offered(mode, access, modes)[i];
    assert(offered(mode, access, modes).contains(t));
    assert(granted(access).contains(t));
    lemma_place(memory_catalogue(), 0, 2, t);
    lemma_place(sandbox_catalogue(), 2, 5, t);
    lemma_place(devkit_catalogue(), 5, 15, t);
    lemma_place(filesystem_catalogue(), 15, 19, t);
    lemma_place(terminal_catalogue(), 19, 24, t);
    lemma_place(configuration_catalogue(), 24, 27, t);
    lemma_place(restart_catalogue(), 27, 28, t);
}

proof fn lemma_place(tools: Seq<ToolView>, lo: int, hi: int, t: ToolView)
    requires
        spanned(tools, lo, hi),
    ensures
        tools.contains(t) ==> lo <= rank(t.name) < hi,
        has_tool(tools, t.name) ==> lo <= rank(t.name) < hi,
{
    if tools.contains(t) {
        let i = choose|i: int| 0 <= i < tools.len() && tools[i] == t;
        assert(lo <= rank(tools[i].name) < hi);
    }
    if has_tool(tools, t.name) {
        let i = choose|i: int| 0 <= i < tools.len() && (#[trigger] tools[i]).name == t.name;
        assert(lo <= rank(tools[i].name) < hi);
    }
}

/// A built-in is judged by its own declaration, whether or not it is currently
/// offered.
pub proof fn law_builtins_are_judged_by_their_declaration(
    tool: ToolView,
    all: Access,
    access: Access,
    modes: Seq<ModeInfo>,
)
    requires
        granted(all).contains(tool),
    ensures
        changes_things(tool.name, access, modes) == tool.mutating,
{
    lemma_granted_names(all);
    assert(built_in(tool));
    let list = known(access, modes);
    lemma_tool_named(list, tool.name);
    if let Some(t) = tool_named(list, tool.name) {
        lemma_known_is_built_in(access, modes, t);
        lemma_same_name(t, tool);
    } else if !tool.mutating {
        lemma_known_holds(access, modes, tool);
    }
}

spec fn known_parts(first: Seq<ToolView>, access: Access, t: ToolView) -> bool {
    ||| first.contains(t)
    ||| !access.sandbox && sandbox_catalogue().contains(t)
    ||| !access.devkit && devkit_catalogue().contains(t)
    ||| !access.filesystem && filesystem_catalogue().contains(t)
    ||| !access.terminal && terminal_catalogue().contains(t)
}

proof fn lemma_known_parts(access: Access, modes: Seq<ModeInfo>, t: ToolView)
    ensures
        known(access, modes).contains(t) == known_parts(
            offered(DEFAULT_MODE@, access, modes),
            access,
            t,
        ),
{
    let first = offered(DEFAULT_MODE@, access, modes);
    let b = part(!access.sandbox, sandbox_catalogue());
    let c = part(!access.devkit, devkit_catalogue());
    let d = part(!access.filesystem, filesystem_catalogue());
    let e = part(!access.terminal, terminal_catalogue());
    assert(known(access, modes) == first + b + c + d + e);
    lemma_contains_add(first, b, t);
    lemma_contains_add(first + b, c, t);
    lemma_contains_add(first + b + c, d, t);
    lemma_contains_add(first + b + c + d, e, t);
}

proof fn lemma_known_is_built_in(access: Access, modes: Seq<ModeInfo>, t: ToolView)
    requires
        known(access, modes).contains(t),
    ensures
        built_in(t),
{
    lemma_known_parts(access, modes, t);
    lemma_granted_names(access);
    lemma_spanned_harmless(granted(access), 0, 28);
}

proof fn lemma_known_holds(access: Access, modes: Seq<ModeInfo>, t: ToolView)
    requires
        built_in(t),
        !t.mutating,
    ensures
        known(access, modes).contains(t),
{
    lemma_known_parts(access, modes, t);
    lemma_granted_names(access);
    lemma_spanned_harmless(granted(access), 0, 28);
    if restart_catalogue().contains(t) {
        lemma_restart_changes_things(t);
    }
}

proof fn lemma_restart_changes_things(t: ToolView)
    requires
        restart_catalogue().contains(t),
    ensures
        t.mutating,
{
}

spec fn built_in(t: ToolView) -> bool {
    ||| memory_catalogue().contains(t)
    ||| sandbox_catalogue().contains(t)
    ||| devkit_catalogue().contains(t)
    ||| filesystem_catalogue().contains(t)
    ||| terminal_catalogue().contains(t)
    ||| configuration_catalogue().contains(t)
    ||| restart_catalogue().contains(t)
}

proof fn lemma_same_name(a: ToolView, b: ToolView)
    requires
        built_in(a),
        built_in(b),
        a.name == b.name,
    ensures
        a == b,
{
    let all = Access {
        sandbox: true,
        devkit: true,
        filesystem: true,
        terminal: true,
        restart: true,
    };
    lemma_granted_names(all);
    let list = granted(all);
    assert(list.contains(a) && list.contains(b));
    let i = choose|i: int| 0 <= i < list.len() && list[i] == a;
    let j = choose|j: int| 0 <= j < list.len() && list[j] == b;
    if i < j {
        assert(rank(list[i].name) < rank(list[j].name));
    } else if j < i {
        assert(rank(list[j].name) < rank(list[i].name));
    }
}

proof fn lemma_tool_named(tools: Seq<ToolView>, name: Seq<char>)
    ensures
        match tool_named(tools, name) {
            Some(t) => tools.contains(t) && t.name == name,
            None => forall|t: ToolView| tools.contains(t) ==> t.name != name,
        },
    decreases tools.len(),
{
    if tools.len() > 0 {
        let rest = tools.skip(1);
        lemma_tool_named(rest, name);
        if tools[0].name == name {
            assert(tools.contains(tools[0]));
        } else {
            match tool_named(rest, name) {
                Some(t) => {
                    let i = choose|i: int| 0 <= i < rest.len() && rest[i] == t;
                    assert(tools[i + 1] == t);
                },
                None => {
                    assert forall|t: ToolView| tools.contains(t) implies t.name != name by {
                        let i = choose|i: int| 0 <= i < tools.len() && tools[i] == t;
                        if i > 0 {
                            assert(rest[i - 1] == t);
                            assert(rest.contains(t));
                        }
                    }
                },
            }
        }
    }
}

// --- what the tools declare ---------------------------------------------------

/// The built-in tools that change something outside the conversation.
pub open spec fn alters(name: Seq<char>) -> bool {
    ||| name == "exec"@
    ||| name == "write_file"@
    ||| name == "new_tool"@
    ||| name == "write_code"@
    ||| name == "patch_code"@
    ||| name == "add_dependency"@
    ||| name == "remove_dependency"@
    ||| name == "rollback"@
    ||| name == "write_path"@
    ||| name == "delete_path"@
    ||| name == "terminal_open"@
    ||| name == "terminal_run"@
    ||| name == "terminal_close"@
    ||| name == "set_config"@
    ||| name == "restart_orchestrator"@
}

/// Whether a tool declares what its call needs: the arguments it cannot do without are
/// required, each of them is described, and it is marked where it changes things.
pub open spec fn declares(t: ToolView) -> bool {
    &&& t.mutating <==> alters(t.name)
    &&& arguments_of(t.name) is Some
    &&& json::field(t.parameters, "required"@) == Some(
        json::text_array(arguments_of(t.name)->0),
    )
    &&& json::field(t.parameters, "properties"@) matches Some(props) && (forall|k: int|
        0 <= k < arguments_of(t.name)->0.len() ==> json::field(
            props,
            #[trigger] arguments_of(t.name)->0[k],
        ) is Some)
}

proof fn lemma_ranks()
    ensures
        rank("remember"@) == 0,
        rank("recall"@) == 1,
        rank("exec"@) == 2,
        rank("write_file"@) == 3,
        rank("read_file"@) == 4,
        rank("new_tool"@) == 5,
        rank("write_code"@) == 6,
        rank("patch_code"@) == 7,
        rank("add_dependency"@) == 8,
        rank("remove_dependency"@) == 9,
        rank("list_dependencies"@) == 10,
        rank("read_code"@) == 11,
        rank("list_code"@) == 12,
        rank("rollback"@) == 13,
        rank("history"@) == 14,
        rank("read_path"@) == 15,
        rank("write_path"@) == 16,
        rank("list_path"@) == 17,
        rank("delete_path"@) == 18,
        rank("terminal_open"@) == 19,
        rank("terminal_run"@) == 20,
        rank("terminal_read"@) == 21,
        rank("terminal_close"@) == 22,
        rank("terminal_list"@) == 23,
        rank("list_config"@) == 24,
        rank("read_config"@) == 25,
        rank("set_config"@) == 26,
        rank("restart_orchestrator"@) == 27,
{
    lemma_memory_names();
    lemma_sandbox_names();
    lemma_devkit_names();
    lemma_filesystem_names();
    lemma_terminal_names();
    lemma_configuration_names();
    lemma_restart_names();
    assert(memory_catalogue()[0].name == "remember"@);
    assert(memory_catalogue()[1].name == "recall"@);
    assert(sandbox_catalogue()[0].name == "exec"@);
    assert(sandbox_catalogue()[1].name == "write_file"@);
    assert(sandbox_catalogue()[2].name == "read_file"@);
    assert(devkit_catalogue()[0].name == "new_tool"@);
    assert(devkit_catalogue()[1].name == "write_code"@);
    assert(devkit_catalogue()[2].name == "patch_code"@);
    assert(devkit_catalogue()[3].name == "add_dependency"@);
    assert(devkit_catalogue()[4].name == "remove_dependency"@);
    assert(devkit_catalogue()[5].name == "list_dependencies"@);
    assert(devkit_catalogue()[6].name == "read_code"@);
    assert(devkit_catalogue()[7].name == "list_code"@);
    assert(devkit_catalogue()[8].name == "rollback"@);
    assert(devkit_catalogue()[9].name == "history"@);
    assert(filesystem_catalogue()[0].name == "read_path"@);
    assert(filesystem_catalogue()[1].name == "write_path"@);
    assert(filesystem_catalogue()[2].name == "list_path"@);
    assert(filesystem_catalogue()[3].name == "delete_path"@);
    assert(terminal_catalogue()[0].name == "terminal_open"@);
    assert(terminal_catalogue()[1].name == "terminal_run"@);
    assert(terminal_catalogue()[2].name == "terminal_read"@);
    assert(terminal_catalogue()[3].name == "terminal_close"@);
    assert(terminal_catalogue()[4].name == "terminal_list"@);
    assert(configuration_catalogue()[0].name == "list_config"@);
    assert(configuration_catalogue()[1].name == "read_config"@);
    assert(configuration_catalogue()[2].name == "set_config"@);
    assert(restart_catalogue()[0].name == "restart_orchestrator"@);
}

proof fn lemma_schema_fields(props: Map<Seq<char>, JsonView>, required: Seq<Seq<char>>)
    ensures
        json::field(schema(props, required), "required"@) == Some(json::text_array(required)),
        json::field(schema(props, required), "properties"@) == Some(JsonView::Object(props)),
        json::text_field(schema(props, required), "type"@) == Some("object"@),
        json::bool_field(schema(props, required), "additionalProperties"@) == Some(false),
{
    reveal_strlit("type");
    reveal_strlit("properties");
    reveal_strlit("required");
    reveal_strlit("additionalProperties");
    assert("type"@.len() == 4 && "properties"@.len() == 10 && "required"@.len() == 8);
    assert("additionalProperties"@.len() == 20);
}

proof fn lemma_memory_declared()
    ensures
        forall|i: int|
            0 <= i < memory_catalogue().len() ==> declares(#[trigger] memory_catalogue()[i]),
{
    lemma_ranks();
    let all = memory_catalogue();
    lemma_schema_fields(
        map![
            "key"@ => string_schema(REMEMBER_KEY@),
            "value"@ => string_schema(REMEMBER_VALUE@),
        ],
        seq!["key"@, "value"@],
    );
    assert(declares(all[0]));
    lemma_schema_fields(
        map![
            "key"@ => string_schema(RECALL_KEY@),
        ],
        Seq::empty(),
    );
    assert(declares(all[1]));
}

proof fn lemma_sandbox_declared()
    ensures
        forall|i: int|
            0 <= i < sandbox_catalogue().len() ==> declares(#[trigger] sandbox_catalogue()[i]),
{
    lemma_ranks();
    let all = sandbox_catalogue();
    lemma_schema_fields(
        map![
            "command"@ => string_schema(EXEC_COMMAND@),
            "timeout_ms"@ => typed_schema("integer"@, EXEC_TIMEOUT_MS@),
        ],
        seq!["command"@],
    );
    assert(declares(all[0]));
    lemma_schema_fields(
        map![
            "path"@ => string_schema(WRITE_FILE_PATH@),
            "contents"@ => string_schema(WRITE_FILE_CONTENTS@),
        ],
        seq!["path"@, "contents"@],
    );
    assert(declares(all[1]));
    lemma_schema_fields(
        map![
            "path"@ => string_schema(WRITE_FILE_PATH@),
        ],
        seq!["path"@],
    );
    assert(declares(all[2]));
}

proof fn lemma_devkit_declared()
    ensures
        forall|i: int|
            0 <= i < devkit_catalogue().len() ==> declares(#[trigger] devkit_catalogue()[i]),
{
    lemma_ranks();
    let all = devkit_catalogue();
    lemma_schema_fields(
        map![
            "name"@ => string_schema(NEW_TOOL_NAME@),
            "description"@ => string_schema(NEW_TOOL_DESCRIPTION@),
        ],
        seq!["name"@, "description"@],
    );
    assert(declares(all[0]));
    lemma_schema_fields(
        map![
            "target"@ => string_schema(TARGET@),
            "path"@ => string_schema(WRITE_CODE_PATH@),
            "contents"@ => string_schema(WRITE_PATH_CONTENTS@),
        ],
        seq!["target"@, "path"@, "contents"@],
    );
    assert(declares(all[1]));
    lemma_schema_fields(
        map![
            "target"@ => string_schema(TARGET@),
            "path"@ => string_schema(WRITE_CODE_PATH@),
            "old_text"@ => string_schema(PATCH_CODE_OLD_TEXT@),
            "new_text"@ => string_schema(PATCH_CODE_NEW_TEXT@),
        ],
        seq!["target"@, "path"@, "old_text"@, "new_text"@],
    );
    assert(declares(all[2]));
    lemma_schema_fields(
        map![
            "target"@ => string_schema(TARGET@),
            "name"@ => string_schema(ADD_DEPENDENCY_NAME@),
            "version"@ => string_schema(ADD_DEPENDENCY_VERSION@),
            "features"@ => list_schema(ADD_DEPENDENCY_FEATURES@),
            "default_features"@ => typed_schema("boolean"@, ADD_DEPENDENCY_DEFAULT_FEATURES@),
        ],
        seq!["target"@, "name"@, "version"@],
    );
    assert(declares(all[3]));
    lemma_schema_fields(
        map![
            "target"@ => string_schema(TARGET@),
            "name"@ => string_schema(REMOVE_DEPENDENCY_NAME@),
        ],
        seq!["target"@, "name"@],
    );
    assert(declares(all[4]));
    lemma_schema_fields(
        map![
            "target"@ => string_schema(TARGET@),
        ],
        seq!["target"@],
    );
    assert(declares(all[5]));
    lemma_schema_fields(
        map![
            "target"@ => string_schema(TARGET@),
            "path"@ => string_schema(READ_CODE_PATH@),
        ],
        seq!["target"@, "path"@],
    );
    assert(declares(all[6]));
    lemma_schema_fields(
        map![
            "target"@ => string_schema(TARGET@),
        ],
        seq!["target"@],
    );
    assert(declares(all[7]));
    lemma_schema_fields(
        map![
            "target"@ => string_schema(ROLLBACK_TARGET@),
            "revision"@ => typed_schema("integer"@, ROLLBACK_REVISION@),
        ],
        seq!["target"@],
    );
    assert(declares(all[8]));
    lemma_schema_fields(
        map![
            "target"@ => string_schema(ROLLBACK_TARGET@),
        ],
        seq!["target"@],
    );
    assert(declares(all[9]));
}

proof fn lemma_filesystem_declared()
    ensures
        forall|i: int|
            0 <= i < filesystem_catalogue().len() ==> declares(#[trigger] filesystem_catalogue()[i]),
{
    lemma_ranks();
    let all = filesystem_catalogue();
    lemma_schema_fields(
        map![
            "path"@ => string_schema(READ_PATH_PATH@),
        ],
        seq!["path"@],
    );
    assert(declares(all[0]));
    lemma_schema_fields(
        map![
            "path"@ => string_schema(WRITE_PATH_PATH@),
            "contents"@ => string_schema(WRITE_PATH_CONTENTS@),
        ],
        seq!["path"@, "contents"@],
    );
    assert(declares(all[1]));
    lemma_schema_fields(
        map![
            "path"@ => string_schema(LIST_PATH_PATH@),
        ],
        seq!["path"@],
    );
    assert(declares(all[2]));
    lemma_schema_fields(
        map![
            "path"@ => string_schema(DELETE_PATH_PATH@),
            "recursive"@ => typed_schema("boolean"@, DELETE_PATH_RECURSIVE@),
        ],
        seq!["path"@],
    );
    assert(declares(all[3]));
}

proof fn lemma_terminal_declared()
    ensures
        forall|i: int|
            0 <= i < terminal_catalogue().len() ==> declares(#[trigger] terminal_catalogue()[i]),
{
    lemma_ranks();
    let all = terminal_catalogue();
    lemma_schema_fields(
        map![
            "cwd"@ => string_schema(TERMINAL_OPEN_CWD@),
        ],
        Seq::empty(),
    );
    assert(declares(all[0]));
    lemma_schema_fields(
        map![
            "id"@ => string_schema(TERMINAL_RUN_ID@),
            "command"@ => string_schema(EXEC_COMMAND@),
            "timeout_ms"@ => typed_schema("integer"@, TERMINAL_RUN_TIMEOUT_MS@),
        ],
        seq!["id"@, "command"@],
    );
    assert(declares(all[1]));
    lemma_schema_fields(
        map![
            "id"@ => string_schema(TERMINAL_READ_ID@),
        ],
        seq!["id"@],
    );
    assert(declares(all[2]));
    lemma_schema_fields(
        map![
            "id"@ => string_schema(TERMINAL_READ_ID@),
        ],
        seq!["id"@],
    );
    assert(declares(all[3]));
    lemma_schema_fields(
        Map::empty(),
        Seq::empty(),
    );
    assert(declares(all[4]));
}

proof fn lemma_configuration_declared()
    ensures
        forall|i: int|
            0 <= i < configuration_catalogue().len() ==> declares(#[trigger] configuration_catalogue()[i]),
{
    lemma_ranks();
    let all = configuration_catalogue();
    lemma_schema_fields(
        map![
            "prefix"@ => string_schema(LIST_CONFIG_PREFIX@),
        ],
        Seq::empty(),
    );
    assert(declares(all[0]));
    lemma_schema_fields(
        map![
            "key"@ => string_schema(READ_CONFIG_KEY@),
        ],
        seq!["key"@],
    );
    assert(declares(all[1]));
    lemma_schema_fields(
        map![
            "key"@ => string_schema(READ_CONFIG_KEY@),
            "value"@ => string_schema(SET_CONFIG_VALUE@),
        ],
        seq!["key"@, "value"@],
    );
    assert(declares(all[2]));
}

proof fn lemma_restart_declared()
    ensures
        forall|i: int|
            0 <= i < restart_catalogue().len() ==> declares(#[trigger] restart_catalogue()[i]),
{
    lemma_ranks();
    let all = restart_catalogue();
    lemma_schema_fields(
        map![
            "reason"@ => string_schema(RESTART_ORCHESTRATOR_REASON@),
            "resume"@ => typed_schema("boolean"@, RESTART_ORCHESTRATOR_RESUME@),
        ],
        seq!["reason"@],
    );
    assert(declares(all[0]));
}

/// Every built-in tool declares what its call needs: the arguments that the call cannot
/// do without are the ones it requires, each is described, and the tool is marked as
/// changing things exactly where it does.
pub proof fn law_every_tool_declares_what_its_call_needs(access: Access, t: ToolView)
    requires
        granted(access).contains(t),
    ensures
        declares(t),
{
    lemma_granted_names(access);
    assert(built_in(t));
    lemma_memory_declared();
    lemma_sandbox_declared();
    lemma_devkit_declared();
    lemma_filesystem_declared();
    lemma_terminal_declared();
    lemma_configuration_declared();
    lemma_restart_declared();
}

/// A mode withholds what changes things exactly where the first mode of its name says
/// so; a name that no mode has withholds nothing.
pub proof fn law_a_mode_withholds_as_it_says(modes: Seq<ModeInfo>, mode: Seq<char>, i: int)
    ensures
        0 <= i < modes.len() && modes[i].id@ == mode && (forall|j: int|
            0 <= j < i ==> (#[trigger] modes[j]).id@ != mode) ==> withholds(modes, mode)
            == modes[i].read_only,
        (forall|j: int| 0 <= j < modes.len() ==> (#[trigger] modes[j]).id@ != mode) ==> !withholds(
            modes,
            mode,
        ),
    decreases modes.len(),
{
    if modes.len() > 0 {
        let rest = modes.skip(1);
        law_a_mode_withholds_as_it_says(rest, mode, i - 1);
        assert forall|j: int| 0 <= j < rest.len() implies rest[j] == #[trigger] modes[j + 1] by {}
        if 0 < i < modes.len() {
            assert(rest[i - 1] == modes[i]);
        }
        if modes[0].id@ != mode {
            assert(withholds(modes, mode) == withholds(rest, mode));
            assert((forall|j: int| 0 <= j < modes.len() ==> (#[trigger] modes[j]).id@ != mode)
                ==> (forall|j: int| 0 <= j < rest.len() ==> (#[trigger] rest[j]).id@ != mode)) by {
                assert forall|j: int|
                    0 <= j < rest.len() && (forall|k: int|
                        0 <= k < modes.len() ==> (#[trigger] modes[k]).id@ != mode) implies (
                #[trigger] rest[j]).id@ != mode by {
                    assert(modes[j + 1] == rest[j]);
                }
            }
            if 0 < i < modes.len() && (forall|j: int| 0 <= j < i ==> (#[trigger] modes[j]).id@
                != mode) {
                assert forall|j: int| 0 <= j < i - 1 implies (#[trigger] rest[j]).id@ != mode by {
                    assert(modes[j + 1] == rest[j]);
                }
            }
        }
    }
}

/// The model is offered every tool on offer, in order, under its own name with its own
/// description and parameters, and after them every component where nothing is
/// withheld.
pub proof fn law_the_model_is_offered_every_tool(
    mode: Seq<char>,
    access: Access,
    modes: Seq<ModeInfo>,
    registry: Seq<ManifestView>,
    i: int,
)
    ensures
        ({
            let tools = offered(mode, access, modes);
            let list = definition_list(mode, access, modes, registry);
            &&& list.len() == tools.len() + if withholds(modes, mode) {
                0
            } else {
                registry.len()
            }
            &&& 0 <= i < tools.len() ==> json::text_field(list[i], "type"@) == Some("function"@)
                && (json::field(list[i], "function"@) matches Some(f) && json::text_field(
                f,
                "name"@,
            ) == Some(tools[i].name) && json::text_field(f, "description"@) == Some(
                tools[i].description,
            ) && json::field(f, "parameters"@) == Some(tools[i].parameters))
            &&& !withholds(modes, mode) && 0 <= i < registry.len() ==> (json::field(
                list[tools.len() + i],
                "function"@,
            ) matches Some(f) && json::text_field(f, "name"@) == Some(registry[i].name)
                && json::text_field(f, "description"@) == Some(registry[i].description) && (
            json::parsed(registry[i].args_schema_json) matches Ok(p) ==> json::field(
                f,
                "parameters"@,
            ) == Some(p)))
        }),
{
    reveal_strlit("type");
    reveal_strlit("function");
    reveal_strlit("name");
    reveal_strlit("description");
    reveal_strlit("parameters");
    assert("type"@.len() == 4 && "function"@.len() == 8);
    assert("name"@.len() == 4 && "description"@.len() == 11 && "parameters"@.len() == 10);
}

/// The tools of a conversation are shown as they are offered: the built-in ones as such,
/// marked where they change things, and the components with what they say they can do.
pub proof fn law_the_panel_shows_what_is_offered(
    mode: Seq<char>,
    access: Access,
    modes: Seq<ModeInfo>,
    registry: Seq<ManifestView>,
    i: int,
)
    ensures
        ({
            let tools = offered(mode, access, modes);
            let list = panel(mode, access, modes, registry);
            &&& list.len() == tools.len() + if withholds(modes, mode) {
                0
            } else {
                registry.len()
            }
            &&& 0 <= i < tools.len() ==> list[i].name == tools[i].name && list[i].description
                == tools[i].description && list[i].args_schema_json == json::compact_text(
                tools[i].parameters,
            ) && list[i].capabilities.contains("built-in"@) && (list[i].capabilities.contains(
                "mutating"@,
            ) <==> tools[i].mutating)
            &&& !withholds(modes, mode) && 0 <= i < registry.len() ==> ({
                let shown = list[tools.len() + i];
                &&& shown.name == registry[i].name
                &&& shown.description == registry[i].description
                &&& shown.args_schema_json == registry[i].args_schema_json
                &&& shown.capabilities == registry[i].capabilities.push("component"@)
            })
        }),
{
    reveal_strlit("built-in");
    reveal_strlit("mutating");
    assert("built-in"@.len() == 8 && "built-in"@[0] == 'b' && "mutating"@[0] == 'm');
    let tools = offered(mode, access, modes);
    if 0 <= i < tools.len() {
        let caps = builtin_manifest(tools[i]).capabilities;
        assert(caps[0] == "built-in"@);
        if tools[i].mutating {
            assert(caps[1] == "mutating"@);
        }
    }
}

/// What an argument is for is described under its own kind: a text, a list of texts, one
/// of some words, or what its type says.
pub proof fn law_arguments_are_described_by_their_kind(
    kind: Seq<char>,
    description: Seq<char>,
    choices: Seq<Seq<char>>,
)
    ensures
        json::text_field(typed_schema(kind, description), "type"@) == Some(kind),
        json::text_field(typed_schema(kind, description), "description"@) == Some(description),
        json::text_field(string_schema(description), "type"@) == Some("string"@),
        json::text_field(string_schema(description), "description"@) == Some(description),
        json::text_field(list_schema(description), "type"@) == Some("array"@),
        json::text_field(list_schema(description), "description"@) == Some(description),
        json::field(list_schema(description), "items"@) matches Some(items) && json::text_field(
            items,
            "type"@,
        ) == Some("string"@),
        json::text_field(choice_schema(choices, description), "type"@) == Some("string"@),
        json::text_field(choice_schema(choices, description), "description"@) == Some(description),
        json::field(choice_schema(choices, description), "enum"@) == Some(
            json::text_array(choices),
        ),
{
    reveal_strlit("type");
    reveal_strlit("description");
    reveal_strlit("items");
    reveal_strlit("enum");
    assert("type"@.len() == 4 && "type"@[0] == 't' && "description"@.len() == 11);
    assert("items"@.len() == 5 && "enum"@.len() == 4 && "enum"@[0] == 'e');
}

} // verus!
