//! The words in which the built-in tools are described to the model.
use vstd::prelude::*;

verus! {

/// What the model reads of `target`.
pub const TARGET: &'static str = "What to edit: 'self' for your own loop, 'gateway:<name>' for a chat interface, or \
    'tool:<name>' for one of your tools.";

/// What the model reads of `rollback_target`.
pub const ROLLBACK_TARGET: &'static str = "'self', 'gateway:<name>', 'tool:<name>', or 'system'.";

/// What the model reads of `remember`.
pub const REMEMBER: &'static str = "Save a durable note for this conversation. Survives restarts and self-modification.";

/// What the model reads of `remember_key`.
pub const REMEMBER_KEY: &'static str = "Short identifier for the note.";

/// What the model reads of `remember_value`.
pub const REMEMBER_VALUE: &'static str = "The content to remember.";

/// What the model reads of `recall`.
pub const RECALL: &'static str = "Read back a saved note. Omit the key to list everything remembered here.";

/// What the model reads of `recall_key`.
pub const RECALL_KEY: &'static str = "The note to read; omit to list all keys.";

/// What the model reads of `exec`.
pub const EXEC: &'static str = "Run a shell command in this session's isolated container.";

/// What the model reads of `exec_command`.
pub const EXEC_COMMAND: &'static str = "The command line to run.";

/// What the model reads of `exec_timeout_ms`.
pub const EXEC_TIMEOUT_MS: &'static str = "Timeout in milliseconds.";

/// What the model reads of `write_file`.
pub const WRITE_FILE: &'static str = "Write a file in the session's container workspace.";

/// What the model reads of `write_file_path`.
pub const WRITE_FILE_PATH: &'static str = "Path inside the workspace.";

/// What the model reads of `write_file_contents`.
pub const WRITE_FILE_CONTENTS: &'static str = "Full file contents.";

/// What the model reads of `read_file`.
pub const READ_FILE: &'static str = "Read a file from the session's container workspace.";

/// What the model reads of `list_config`.
pub const LIST_CONFIG: &'static str = "List Genesis's settings as dotted paths with their current values. Pass a prefix \
    such as 'llm' or 'terminal' to narrow it.";

/// What the model reads of `list_config_prefix`.
pub const LIST_CONFIG_PREFIX: &'static str = "Section to narrow to, e.g. 'budgets'. Omit for all.";

/// What the model reads of `read_config`.
pub const READ_CONFIG: &'static str = "Read one setting by its dotted path, e.g. 'llm.model'.";

/// What the model reads of `read_config_key`.
pub const READ_CONFIG_KEY: &'static str = "Dotted path of the setting.";

/// What the model reads of `set_config`.
pub const SET_CONFIG: &'static str = "Change one setting and write it back to the config file. The change is refused if \
    the result would not load. Settings are read at startup, so call \
    restart_orchestrator afterwards for it to take effect.";

/// What the model reads of `set_config_value`.
pub const SET_CONFIG_VALUE: &'static str = "New value. Its type is taken from the existing one.";

/// What the model reads of `restart_orchestrator`.
pub const RESTART_ORCHESTRATOR: &'static str = "Restart the Genesis process. Needed for changes to the native binary or to settings \
    only read at startup. The chat reconnects on its own, and this turn continues \
    afterwards unless you say otherwise; say why first, because the restart happens just \
    after your turn ends.";

/// What the model reads of `restart_orchestrator_reason`.
pub const RESTART_ORCHESTRATOR_REASON: &'static str = "Why a restart is needed.";

/// What the model reads of `restart_orchestrator_resume`.
pub const RESTART_ORCHESTRATOR_RESUME: &'static str = "Carry this turn on once Genesis is back, which is the default. Set false only if the \
    restart is the last thing you mean to do.";

/// What the model reads of `read_path`.
pub const READ_PATH: &'static str = "Read a file from the host filesystem.";

/// What the model reads of `read_path_path`.
pub const READ_PATH_PATH: &'static str = "Path, relative to the project root unless absolute.";

/// What the model reads of `write_path`.
pub const WRITE_PATH: &'static str = "Write a file on the host filesystem, creating parent directories as needed. Replaces \
    the whole file.";

/// What the model reads of `write_path_path`.
pub const WRITE_PATH_PATH: &'static str = "Path to write.";

/// What the model reads of `write_path_contents`.
pub const WRITE_PATH_CONTENTS: &'static str = "The complete new file contents.";

/// What the model reads of `list_path`.
pub const LIST_PATH: &'static str = "List a directory on the host filesystem.";

/// What the model reads of `list_path_path`.
pub const LIST_PATH_PATH: &'static str = "Directory to list; '.' for the project root.";

/// What the model reads of `delete_path`.
pub const DELETE_PATH: &'static str = "Delete a file or directory on the host filesystem. This cannot be undone, so check \
    the path first.";

/// What the model reads of `delete_path_path`.
pub const DELETE_PATH_PATH: &'static str = "Path to delete.";

/// What the model reads of `delete_path_recursive`.
pub const DELETE_PATH_RECURSIVE: &'static str = "Required to delete a directory that is not empty.";

/// What the model reads of `terminal_open`.
pub const TERMINAL_OPEN: &'static str = "Open a shell session and return its id. Reuse the id for related commands so the \
    working directory and environment carry over.";

/// What the model reads of `terminal_open_cwd`.
pub const TERMINAL_OPEN_CWD: &'static str = "Directory to start in; defaults to the project root.";

/// What the model reads of `terminal_run`.
pub const TERMINAL_RUN: &'static str = "Run a command in an open shell session and wait for it to finish. Returns whatever \
    it printed. A command that outlives the timeout keeps running; read the session \
    again later for the rest.";

/// What the model reads of `terminal_run_id`.
pub const TERMINAL_RUN_ID: &'static str = "Session id from terminal_open.";

/// What the model reads of `terminal_run_timeout_ms`.
pub const TERMINAL_RUN_TIMEOUT_MS: &'static str = "How long to wait. Omit for the configured default.";

/// What the model reads of `terminal_read`.
pub const TERMINAL_READ: &'static str = "Read anything a session has printed since the last read, without running anything. \
    Use it to collect output from a command that timed out.";

/// What the model reads of `terminal_read_id`.
pub const TERMINAL_READ_ID: &'static str = "Session id.";

/// What the model reads of `terminal_close`.
pub const TERMINAL_CLOSE: &'static str = "Close a shell session and stop its process.";

/// What the model reads of `terminal_list`.
pub const TERMINAL_LIST: &'static str = "List the open shell sessions.";

/// What the model reads of `new_tool`.
pub const NEW_TOOL: &'static str = "Scaffold a new tool component: creates the crate, builds it, and loads it. Returns \
    the compile result.";

/// What the model reads of `new_tool_name`.
pub const NEW_TOOL_NAME: &'static str = "Lowercase name, hyphens allowed.";

/// What the model reads of `new_tool_description`.
pub const NEW_TOOL_DESCRIPTION: &'static str = "What the tool does; shown to you later.";

/// What the model reads of `write_code`.
pub const WRITE_CODE: &'static str = "Replace a whole file in a component, then rebuild and hot-swap it. The compile \
    result comes back immediately, so fix errors and call again until it builds.";

/// What the model reads of `write_code_path`.
pub const WRITE_CODE_PATH: &'static str = "File path within the component's source tree.";

/// What the model reads of `patch_code`.
pub const PATCH_CODE: &'static str = "Replace an exact snippet in a component file, then rebuild and hot-swap it. Returns \
    the compile result.";

/// What the model reads of `patch_code_old_text`.
pub const PATCH_CODE_OLD_TEXT: &'static str = "Exact text to find; must appear exactly once.";

/// What the model reads of `patch_code_new_text`.
pub const PATCH_CODE_NEW_TEXT: &'static str = "Replacement text.";

/// What the model reads of `add_dependency`.
pub const ADD_DEPENDENCY: &'static str = "Add a crate from crates.io to a component's dependencies, then rebuild it. Any \
    published crate that supports wasm32-wasip2 will work; pure-computation crates \
    almost always do. This fetches over the network, so it is slower than an ordinary \
    edit. If the build fails the manifest is put back as it was.";

/// What the model reads of `add_dependency_name`.
pub const ADD_DEPENDENCY_NAME: &'static str = "Crate name as published, e.g. 'regex'.";

/// What the model reads of `add_dependency_version`.
pub const ADD_DEPENDENCY_VERSION: &'static str = "Version requirement, e.g. '1' or '0.4.31'.";

/// What the model reads of `add_dependency_features`.
pub const ADD_DEPENDENCY_FEATURES: &'static str = "Cargo features to enable. Omit for none.";

/// What the model reads of `add_dependency_default_features`.
pub const ADD_DEPENDENCY_DEFAULT_FEATURES: &'static str = "Keep the crate's default features. Defaults to true.";

/// What the model reads of `remove_dependency`.
pub const REMOVE_DEPENDENCY: &'static str = "Drop a crate from a component's dependencies and rebuild it.";

/// What the model reads of `remove_dependency_name`.
pub const REMOVE_DEPENDENCY_NAME: &'static str = "Crate name to remove.";

/// What the model reads of `list_dependencies`.
pub const LIST_DEPENDENCIES: &'static str = "List the crates a component currently depends on.";

/// What the model reads of `read_code`.
pub const READ_CODE: &'static str = "Read one of your own source files.";

/// What the model reads of `read_code_path`.
pub const READ_CODE_PATH: &'static str = "File path to read.";

/// What the model reads of `list_code`.
pub const LIST_CODE: &'static str = "List the source files of a component.";

/// What the model reads of `rollback`.
pub const ROLLBACK: &'static str = "Restore a component (or the whole system) to an earlier revision. Use when a change \
    made things worse.";

/// What the model reads of `rollback_revision`.
pub const ROLLBACK_REVISION: &'static str = "Revision to restore; omit for the last good one.";

/// What the model reads of `history`.
pub const HISTORY: &'static str = "List the revision history of a component or of the whole system.";

} // verus!
