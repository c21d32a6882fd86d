//! From a tool call to what the harness is asked to do, and from its answer
//! back to what the model reads.
use vstd::prelude::*;

use crate::json;
use crate::json::{Json, JsonView};
use crate::report;
use crate::text;
use crate::text::{begins, cut, joined, outcome_of, text_of, texts};
use crate::tools::{changes_things, is_mutating, read_only, withholds, Access};
use crate::types::{
    CompileReport, ConfigEntry, Dependency, DependencyView, ExecResult, FsEntry, ModTarget,
    ModTargetView, ModeInfo, RevisionInfo, RollbackTarget, RollbackTargetView, TerminalInfo,
    TerminalOutput,
};

verus! {

/// What the harness is asked to do for a tool call.
#[derive(Debug, Clone, PartialEq, Eq)]
pub enum Request {
    /// Save a note.
    Remember { key: String, value: String },
    /// Read one note back, or all of them.
    Recall { key: Option<String> },
    /// Run a command in the sandbox.
    Exec { command: String, timeout_ms: u32 },
    /// Write a file in the sandbox.
    WriteFile { path: String, contents: String },
    /// Read a file in the sandbox.
    ReadFile { path: String },
    /// Create a tool.
    NewTool { name: String, description: String },
    /// Replace a source file.
    WriteCode { target: ModTarget, path: String, contents: String },
    /// Replace a snippet of a source file.
    PatchCode { target: ModTarget, path: String, old_text: String, new_text: String },
    /// Add a dependency.
    AddDependency { target: ModTarget, dependency: Dependency },
    /// Drop a dependency.
    RemoveDependency { target: ModTarget, name: String },
    /// List the dependencies.
    ListDependencies { target: ModTarget },
    /// Read a source file.
    ReadCode { target: ModTarget, path: String },
    /// List the source files.
    ListCode { target: ModTarget },
    /// Go back to an earlier revision.
    Rollback { target: RollbackTarget, revision: Option<u64> },
    /// List the revisions.
    History { target: RollbackTarget },
    /// Read a file of the host.
    ReadPath { path: String },
    /// Write a file of the host.
    WritePath { path: String, contents: String },
    /// List a directory of the host.
    ListPath { path: String },
    /// Delete a file or directory of the host.
    DeletePath { path: String, recursive: bool },
    /// Open a shell session.
    TerminalOpen { cwd: Option<String> },
    /// Run a command in a session.
    TerminalRun { id: String, command: String, timeout_ms: u32 },
    /// Read what a session printed.
    TerminalRead { id: String },
    /// Close a session.
    TerminalClose { id: String },
    /// List the sessions.
    TerminalList,
    /// List the settings.
    ListConfig { prefix: Option<String> },
    /// Read one setting.
    ReadConfig { key: String },
    /// Change one setting.
    SetConfig { key: String, value: String },
    /// Restart the process.
    Restart { reason: String, resume: bool },
    /// Call a hot-loaded tool component with the arguments as they came.
    Component { name: String },
}

/// What the harness is asked to do for a tool call, as text.
pub enum RequestView {
    /// Save a note.
    Remember { key: Seq<char>, value: Seq<char> },
    /// Read one note back, or all of them.
    Recall { key: Option<Seq<char>> },
    /// Run a command in the sandbox.
    Exec { command: Seq<char>, timeout_ms: u32 },
    /// Write a file in the sandbox.
    WriteFile { path: Seq<char>, contents: Seq<char> },
    /// Read a file in the sandbox.
    ReadFile { path: Seq<char> },
    /// Create a tool.
    NewTool { name: Seq<char>, description: Seq<char> },
    /// Replace a source file.
    WriteCode { target: ModTargetView, path: Seq<char>, contents: Seq<char> },
    /// Replace a snippet of a source file.
    PatchCode { target: ModTargetView, path: Seq<char>, old_text: Seq<char>, new_text: Seq<char> },
    /// Add a dependency.
    AddDependency { target: ModTargetView, dependency: DependencyView },
    /// Drop a dependency.
    RemoveDependency { target: ModTargetView, name: Seq<char> },
    /// List the dependencies.
    ListDependencies { target: ModTargetView },
    /// Read a source file.
    ReadCode { target: ModTargetView, path: Seq<char> },
    /// List the source files.
    ListCode { target: ModTargetView },
    /// Go back to an earlier revision.
    Rollback { target: RollbackTargetView, revision: Option<u64> },
    /// List the revisions.
    History { target: RollbackTargetView },
    /// Read a file of the host.
    ReadPath { path: Seq<char> },
    /// Write a file of the host.
    WritePath { path: Seq<char>, contents: Seq<char> },
    /// List a directory of the host.
    ListPath { path: Seq<char> },
    /// Delete a file or directory of the host.
    DeletePath { path: Seq<char>, recursive: bool },
    /// Open a shell session.
    TerminalOpen { cwd: Option<Seq<char>> },
    /// Run a command in a session.
    TerminalRun { id: Seq<char>, command: Seq<char>, timeout_ms: u32 },
    /// Read what a session printed.
    TerminalRead { id: Seq<char> },
    /// Close a session.
    TerminalClose { id: Seq<char> },
    /// List the sessions.
    TerminalList,
    /// List the settings.
    ListConfig { prefix: Option<Seq<char>> },
    /// Read one setting.
    ReadConfig { key: Seq<char> },
    /// Change one setting.
    SetConfig { key: Seq<char>, value: Seq<char> },
    /// Restart the process.
    Restart { reason: Seq<char>, resume: bool },
    /// Call a hot-loaded tool component with the arguments as they came.
    Component { name: Seq<char> },
}

impl View for Request {
    type V = RequestView;

    open spec fn view(&self) -> RequestView {
        match self {
            Request::Remember { key, value } => RequestView::Remember { key: key@, value: value@ },
            Request::Recall { key } => RequestView::Recall { key: text_of(*key) },
            Request::Exec { command, timeout_ms } => RequestView::Exec { command: command@, timeout_ms: *timeout_ms },
            Request::WriteFile { path, contents } => RequestView::WriteFile { path: path@, contents: contents@ },
            Request::ReadFile { path } => RequestView::ReadFile { path: path@ },
            Request::NewTool { name, description } => RequestView::NewTool { name: name@, description: description@ },
            Request::WriteCode { target, path, contents } => RequestView::WriteCode { target: target@, path: path@, contents: contents@ },
            Request::PatchCode { target, path, old_text, new_text } => RequestView::PatchCode { target: target@, path: path@, old_text: old_text@, new_text: new_text@ },
            Request::AddDependency { target, dependency } => RequestView::AddDependency { target: target@, dependency: dependency@ },
            Request::RemoveDependency { target, name } => RequestView::RemoveDependency { target: target@, name: name@ },
            Request::ListDependencies { target } => RequestView::ListDependencies { target: target@ },
            Request::ReadCode { target, path } => RequestView::ReadCode { target: target@, path: path@ },
            Request::ListCode { target } => RequestView::ListCode { target: target@ },
            Request::Rollback { target, revision } => RequestView::Rollback { target: target@, revision: *revision },
            Request::History { target } => RequestView::History { target: target@ },
            Request::ReadPath { path } => RequestView::ReadPath { path: path@ },
            Request::WritePath { path, contents } => RequestView::WritePath { path: path@, contents: contents@ },
            Request::ListPath { path } => RequestView::ListPath { path: path@ },
            Request::DeletePath { path, recursive } => RequestView::DeletePath { path: path@, recursive: *recursive },
            Request::TerminalOpen { cwd } => RequestView::TerminalOpen { cwd: text_of(*cwd) },
            Request::TerminalRun { id, command, timeout_ms } => RequestView::TerminalRun { id: id@, command: command@, timeout_ms: *timeout_ms },
            Request::TerminalRead { id } => RequestView::TerminalRead { id: id@ },
            Request::TerminalClose { id } => RequestView::TerminalClose { id: id@ },
            Request::TerminalList => RequestView::TerminalList,
            Request::ListConfig { prefix } => RequestView::ListConfig { prefix: text_of(*prefix) },
            Request::ReadConfig { key } => RequestView::ReadConfig { key: key@ },
            Request::SetConfig { key, value } => RequestView::SetConfig { key: key@, value: value@ },
            Request::Restart { reason, resume } => RequestView::Restart { reason: reason@, resume: *resume },
            Request::Component { name } => RequestView::Component { name: name@ },
        }
    }
}

/// What a decision says, with the request or the message as text.
pub open spec fn decided(r: Result<Request, String>) -> Result<RequestView, Seq<char>> {
    match r {
        Ok(request) => Ok(request@),
        Err(e) => Err(e@),
    }
}

/// What an optional decision says.
pub open spec fn maybe(r: Option<Result<Request, String>>) -> Option<
    Result<RequestView, Seq<char>>,
> {
    match r {
        Some(d) => Some(decided(d)),
        None => None,
    }
}

/// Both of two values, or the first error.
pub open spec fn both<A, B>(a: Result<A, Seq<char>>, b: Result<B, Seq<char>>) -> Result<
    (A, B),
    Seq<char>,
> {
    match a {
        Err(e) => Err(e),
        Ok(x) => match b {
            Err(e) => Err(e),
            Ok(y) => Ok((x, y)),
        },
    }
}

/// A value, or a default where there is none.
pub open spec fn or<A>(value: Option<A>, default: A) -> A {
    match value {
        Some(v) => v,
        None => default,
    }
}

/// The low 32 bits of a number.
pub open spec fn low_bits(n: u64) -> u32 {
    (n % 0x1_0000_0000) as u32
}

fn low_u32(value: Option<u64>, default: u64) -> (r: u32)
    ensures
        r == low_bits(or(value, default)),
{
    let n: u64 = match value {
        Some(v) => v,
        None => default,
    };
    (n % 0x1_0000_0000) as u32
}

// --- arguments --------------------------------------------------------------

/// A string argument that must be there.
pub open spec fn required(args: JsonView, key: Seq<char>) -> Result<Seq<char>, Seq<char>> {
    match json::text_field(args, key) {
        Some(s) => Ok(s),
        None => Err("missing required argument '"@ + key + "'"@),
    }
}

/// A string argument that must be there.
pub fn req_str(args: &Json, key: &str) -> (r: Result<String, String>)
    ensures
        match r {
            Ok(s) => required(args@, key@) == Ok::<Seq<char>, Seq<char>>(s@),
            Err(e) => required(args@, key@) == Err::<Seq<char>, Seq<char>>(e@),
        },
{
    match args.get_str(key) {
        Some(s) => Ok(s),
        None => Err("missing required argument '".to_owned().concat(key).concat("'")),
    }
}

/// What a target's name stands for.
pub open spec fn mod_target(raw: Seq<char>) -> Result<ModTargetView, Seq<char>> {
    let unknown = Err(
        "unknown target '"@ + raw + "'; use 'self', 'tool:<name>', or 'gateway:<name>'"@,
    );
    if raw == "self"@ || raw == "agent"@ {
        Ok(ModTargetView::AgentSelf)
    } else {
        match cut(raw, ':') {
            Some((kind, name)) => if kind == "tool"@ {
                Ok(ModTargetView::Tool(name))
            } else if kind == "gateway"@ {
                Ok(ModTargetView::Gateway(name))
            } else {
                unknown
            },
            None => unknown,
        }
    }
}

/// What a target's name stands for.
pub fn parse_mod_target(raw: &str) -> (r: Result<ModTarget, String>)
    ensures
        match r {
            Ok(t) => mod_target(raw@) == Ok::<ModTargetView, Seq<char>>(t@),
            Err(e) => mod_target(raw@) == Err::<ModTargetView, Seq<char>>(e@),
        },
{
    if text::same(raw, "self") || text::same(raw, "agent") {
        return Ok(ModTarget::AgentSelf);
    }
    if let Some((kind, name)) = text::split_once(raw, ':') {
        if text::same(kind.as_str(), "tool") {
            return Ok(ModTarget::Tool(name));
        }
        if text::same(kind.as_str(), "gateway") {
            return Ok(ModTarget::Gateway(name));
        }
    }
    Err(
        "unknown target '".to_owned().concat(raw).concat(
            "'; use 'self', 'tool:<name>', or 'gateway:<name>'",
        ),
    )
}

/// What a rollback target's name stands for.
pub open spec fn rollback_target(raw: Seq<char>) -> Result<RollbackTargetView, Seq<char>> {
    let unknown = Err(
        "unknown target '"@ + raw
            + "'; use 'self', 'system', 'tool:<name>', or 'gateway:<name>'"@,
    );
    if raw == "self"@ || raw == "agent"@ {
        Ok(RollbackTargetView::AgentSelf)
    } else if raw == "system"@ || raw == "all"@ {
        Ok(RollbackTargetView::WholeSystem)
    } else {
        match cut(raw, ':') {
            Some((kind, name)) => if kind == "tool"@ {
                Ok(RollbackTargetView::Tool(name))
            } else if kind == "gateway"@ {
                Ok(RollbackTargetView::Gateway(name))
            } else {
                unknown
            },
            None => unknown,
        }
    }
}

/// What a rollback target's name stands for.
pub fn parse_rollback_target(raw: &str) -> (r: Result<RollbackTarget, String>)
    ensures
        match r {
            Ok(t) => rollback_target(raw@) == Ok::<RollbackTargetView, Seq<char>>(t@),
            Err(e) => rollback_target(raw@) == Err::<RollbackTargetView, Seq<char>>(e@),
        },
{
    if text::same(raw, "self") || text::same(raw, "agent") {
        return Ok(RollbackTarget::AgentSelf);
    }
    if text::same(raw, "system") || text::same(raw, "all") {
        return Ok(RollbackTarget::WholeSystem);
    }
    if let Some((kind, name)) = text::split_once(raw, ':') {
        if text::same(kind.as_str(), "tool") {
            return Ok(RollbackTarget::Tool(name));
        }
        if text::same(kind.as_str(), "gateway") {
            return Ok(RollbackTarget::Gateway(name));
        }
    }
    Err(
        "unknown target '".to_owned().concat(raw).concat(
            "'; use 'self', 'system', 'tool:<name>', or 'gateway:<name>'",
        ),
    )
}

/// The target argument of a change.
pub open spec fn required_target(args: JsonView) -> Result<ModTargetView, Seq<char>> {
    match required(args, "target"@) {
        Ok(raw) => mod_target(raw),
        Err(e) => Err(e),
    }
}

fn req_target(args: &Json) -> (r: Result<ModTarget, String>)
    ensures
        match r {
            Ok(t) => required_target(args@) == Ok::<ModTargetView, Seq<char>>(t@),
            Err(e) => required_target(args@) == Err::<ModTargetView, Seq<char>>(e@),
        },
{
    match req_str(args, "target") {
        Ok(raw) => parse_mod_target(raw.as_str()),
        Err(e) => Err(e),
    }
}

/// The target argument of a rollback.
pub open spec fn required_rollback(args: JsonView) -> Result<RollbackTargetView, Seq<char>> {
    match required(args, "target"@) {
        Ok(raw) => rollback_target(raw),
        Err(e) => Err(e),
    }
}

fn req_rollback(args: &Json) -> (r: Result<RollbackTarget, String>)
    ensures
        match r {
            Ok(t) => required_rollback(args@) == Ok::<RollbackTargetView, Seq<char>>(t@),
            Err(e) => required_rollback(args@) == Err::<RollbackTargetView, Seq<char>>(e@),
        },
{
    match req_str(args, "target") {
        Ok(raw) => parse_rollback_target(raw.as_str()),
        Err(e) => Err(e),
    }
}

/// The dependency that a call describes.
pub open spec fn required_dependency(args: JsonView) -> Result<DependencyView, Seq<char>> {
    match both(required(args, "name"@), required(args, "version"@)) {
        Ok((name, version)) => Ok(
            DependencyView {
                name,
                version,
                features: match json::array_field(args, "features"@) {
                    Some(items) => json::strings_in(items),
                    None => Seq::empty(),
                },
                default_features: or(json::bool_field(args, "default_features"@), true),
            },
        ),
        Err(e) => Err(e),
    }
}

fn req_dependency(args: &Json) -> (r: Result<Dependency, String>)
    ensures
        match r {
            Ok(d) => required_dependency(args@) == Ok::<DependencyView, Seq<char>>(d@),
            Err(e) => required_dependency(args@) == Err::<DependencyView, Seq<char>>(e@),
        },
{
    let name = match req_str(args, "name") {
        Ok(v) => v,
        Err(e) => return Err(e),
    };
    let version = match req_str(args, "version") {
        Ok(v) => v,
        Err(e) => return Err(e),
    };
    let features = match args.get_array("features") {
        Some(items) => json::strings_of(items),
        None => {
            let none: Vec<String> = Vec::new();
            assert(texts(none@) =~= Seq::<Seq<char>>::empty());
            none
        },
    };
    let default_features = args.get_bool("default_features").unwrap_or(true);
    Ok(Dependency { name, version, features, default_features })
}

// --- calls ------------------------------------------------------------------

/// The calls that concern notes.
pub open spec fn memory_call(name: Seq<char>, args: JsonView) -> Option<
    Result<RequestView, Seq<char>>,
> {
    if name == "remember"@ {
        Some(
            match both(required(args, "key"@), required(args, "value"@)) {
                Ok((key, value)) => if begins(key, "__"@) {
                    Err("keys beginning with '__' are reserved"@)
                } else {
                    Ok(RequestView::Remember { key, value })
                },
                Err(e) => Err(e),
            },
        )
    } else if name == "recall"@ {
        Some(Ok(RequestView::Recall { key: json::text_field(args, "key"@) }))
    } else {
        None
    }
}

fn memory_request(name: &str, args: &Json) -> (r: Option<Result<Request, String>>)
    ensures
        maybe(r) == memory_call(name@, args@),
{
    if text::same(name, "remember") {
        let key = match req_str(args, "key") {
            Ok(v) => v,
            Err(e) => return Some(Err(e)),
        };
        let value = match req_str(args, "value") {
            Ok(v) => v,
            Err(e) => return Some(Err(e)),
        };
        if text::starts_with(key.as_str(), "__") {
            return Some(Err("keys beginning with '__' are reserved".to_owned()));
        }
        return Some(Ok(Request::Remember { key, value }));
    }
    if text::same(name, "recall") {
        return Some(Ok(Request::Recall { key: args.get_str("key") }));
    }
    None
}

/// The calls that concern the sandbox.
pub open spec fn sandbox_call(name: Seq<char>, args: JsonView) -> Option<
    Result<RequestView, Seq<char>>,
> {
    if name == "exec"@ {
        Some(match required(args, "command"@) {
            Ok(command) => Ok(RequestView::Exec { command, timeout_ms: low_bits(or(json::u64_field(args, "timeout_ms"@), 30_000)) }),
            Err(e) => Err(e),
        })
    } else if name == "write_file"@ {
        Some(match both(required(args, "path"@), required(args, "contents"@)) {
            Ok((path, contents)) => Ok(RequestView::WriteFile { path, contents }),
            Err(e) => Err(e),
        })
    } else if name == "read_file"@ {
        Some(match required(args, "path"@) {
            Ok(path) => Ok(RequestView::ReadFile { path }),
            Err(e) => Err(e),
        })
    } else {
        None
    }
}

fn sandbox_request(name: &str, args: &Json) -> (r: Option<Result<Request, String>>)
    ensures
        maybe(r) == sandbox_call(name@, args@),
{
    if text::same(name, "exec") {
        let command = match req_str(args, "command") {
            Ok(v) => v,
            Err(e) => return Some(Err(e)),
        };
        return Some(Ok(Request::Exec { command, timeout_ms: low_u32(args.get_u64("timeout_ms"), 30_000) }));
    }
    if text::same(name, "write_file") {
        let path = match req_str(args, "path") {
            Ok(v) => v,
            Err(e) => return Some(Err(e)),
        };
        let contents = match req_str(args, "contents") {
            Ok(v) => v,
            Err(e) => return Some(Err(e)),
        };
        return Some(Ok(Request::WriteFile { path, contents }));
    }
    if text::same(name, "read_file") {
        let path = match req_str(args, "path") {
            Ok(v) => v,
            Err(e) => return Some(Err(e)),
        };
        return Some(Ok(Request::ReadFile { path }));
    }
    None
}

/// The calls that concern source files.
pub open spec fn source_call(name: Seq<char>, args: JsonView) -> Option<
    Result<RequestView, Seq<char>>,
> {
    if name == "new_tool"@ {
        Some(match both(required(args, "name"@), required(args, "description"@)) {
            Ok((name, description)) => Ok(RequestView::NewTool { name, description }),
            Err(e) => Err(e),
        })
    } else if name == "write_code"@ {
        Some(match both(required_target(args), both(required(args, "path"@), required(args, "contents"@))) {
            Ok((target, (path, contents))) => Ok(RequestView::WriteCode { target, path, contents }),
            Err(e) => Err(e),
        })
    } else if name == "patch_code"@ {
        Some(match both(required_target(args), both(required(args, "path"@), both(required(args, "old_text"@), required(args, "new_text"@)))) {
            Ok((target, (path, (old_text, new_text)))) => Ok(RequestView::PatchCode { target, path, old_text, new_text }),
            Err(e) => Err(e),
        })
    } else if name == "read_code"@ {
        Some(match both(required_target(args), required(args, "path"@)) {
            Ok((target, path)) => Ok(RequestView::ReadCode { target, path }),
            Err(e) => Err(e),
        })
    } else if name == "list_code"@ {
        Some(match required_target(args) {
            Ok(target) => Ok(RequestView::ListCode { target }),
            Err(e) => Err(e),
        })
    } else {
        None
    }
}

fn source_request(name: &str, args: &Json) -> (r: Option<Result<Request, String>>)
    ensures
        maybe(r) == source_call(name@, args@),
{
    if text::same(name, "new_tool") {
        let name = match req_str(args, "name") {
            Ok(v) => v,
            Err(e) => return Some(Err(e)),
        };
        let description = match req_str(args, "description") {
            Ok(v) => v,
            Err(e) => return Some(Err(e)),
        };
        return Some(Ok(Request::NewTool { name, description }));
    }
    if text::same(name, "write_code") {
        let target = match req_target(args) {
            Ok(v) => v,
            Err(e) => return Some(Err(e)),
        };
        let path = match req_str(args, "path") {
            Ok(v) => v,
            Err(e) => return Some(Err(e)),
        };
        let contents = match req_str(args, "contents") {
            Ok(v) => v,
            Err(e) => return Some(Err(e)),
        };
        return Some(Ok(Request::WriteCode { target, path, contents }));
    }
    if text::same(name, "patch_code") {
        let target = match req_target(args) {
            Ok(v) => v,
            Err(e) => return Some(Err(e)),
        };
        let path = match req_str(args, "path") {
            Ok(v) => v,
            Err(e) => return Some(Err(e)),
        };
        let old_text = match req_str(args, "old_text") {
            Ok(v) => v,
            Err(e) => return Some(Err(e)),
        };
        let new_text = match req_str(args, "new_text") {
            Ok(v) => v,
            Err(e) => return Some(Err(e)),
        };
        return Some(Ok(Request::PatchCode { target, path, old_text, new_text }));
    }
    if text::same(name, "read_code") {
        let target = match req_target(args) {
            Ok(v) => v,
            Err(e) => return Some(Err(e)),
        };
        let path = match req_str(args, "path") {
            Ok(v) => v,
            Err(e) => return Some(Err(e)),
        };
        return Some(Ok(Request::ReadCode { target, path }));
    }
    if text::same(name, "list_code") {
        let target = match req_target(args) {
            Ok(v) => v,
            Err(e) => return Some(Err(e)),
        };
        return Some(Ok(Request::ListCode { target }));
    }
    None
}

/// The calls that concern dependencies.
pub open spec fn dependency_call(name: Seq<char>, args: JsonView) -> Option<
    Result<RequestView, Seq<char>>,
> {
    if name == "add_dependency"@ {
        Some(match both(required_target(args), required_dependency(args)) {
            Ok((target, dependency)) => Ok(RequestView::AddDependency { target, dependency }),
            Err(e) => Err(e),
        })
    } else if name == "remove_dependency"@ {
        Some(match both(required_target(args), required(args, "name"@)) {
            Ok((target, name)) => Ok(RequestView::RemoveDependency { target, name }),
            Err(e) => Err(e),
        })
    } else if name == "list_dependencies"@ {
        Some(match required_target(args) {
            Ok(target) => Ok(RequestView::ListDependencies { target }),
            Err(e) => Err(e),
        })
    } else {
        None
    }
}

fn dependency_request(name: &str, args: &Json) -> (r: Option<Result<Request, String>>)
    ensures
        maybe(r) == dependency_call(name@, args@),
{
    if text::same(name, "add_dependency") {
        let target = match req_target(args) {
            Ok(v) => v,
            Err(e) => return Some(Err(e)),
        };
        let dependency = match req_dependency(args) {
            Ok(v) => v,
            Err(e) => return Some(Err(e)),
        };
        return Some(Ok(Request::AddDependency { target, dependency }));
    }
    if text::same(name, "remove_dependency") {
        let target = match req_target(args) {
            Ok(v) => v,
            Err(e) => return Some(Err(e)),
        };
        let name = match req_str(args, "name") {
            Ok(v) => v,
            Err(e) => return Some(Err(e)),
        };
        return Some(Ok(Request::RemoveDependency { target, name }));
    }
    if text::same(name, "list_dependencies") {
        let target = match req_target(args) {
            Ok(v) => v,
            Err(e) => return Some(Err(e)),
        };
        return Some(Ok(Request::ListDependencies { target }));
    }
    None
}

/// The calls that concern revisions.
pub open spec fn revision_call(name: Seq<char>, args: JsonView) -> Option<
    Result<RequestView, Seq<char>>,
> {
    if name == "rollback"@ {
        Some(match required_rollback(args) {
            Ok(target) => Ok(RequestView::Rollback { target, revision: json::u64_field(args, "revision"@) }),
            Err(e) => Err(e),
        })
    } else if name == "history"@ {
        Some(match required_rollback(args) {
            Ok(target) => Ok(RequestView::History { target }),
            Err(e) => Err(e),
        })
    } else {
        None
    }
}

fn revision_request(name: &str, args: &Json) -> (r: Option<Result<Request, String>>)
    ensures
        maybe(r) == revision_call(name@, args@),
{
    if text::same(name, "rollback") {
        let target = match req_rollback(args) {
            Ok(v) => v,
            Err(e) => return Some(Err(e)),
        };
        return Some(Ok(Request::Rollback { target, revision: args.get_u64("revision") }));
    }
    if text::same(name, "history") {
        let target = match req_rollback(args) {
            Ok(v) => v,
            Err(e) => return Some(Err(e)),
        };
        return Some(Ok(Request::History { target }));
    }
    None
}

/// The calls that concern the host's files.
pub open spec fn filesystem_call(name: Seq<char>, args: JsonView) -> Option<
    Result<RequestView, Seq<char>>,
> {
    if name == "read_path"@ {
        Some(match required(args, "path"@) {
            Ok(path) => Ok(RequestView::ReadPath { path }),
            Err(e) => Err(e),
        })
    } else if name == "write_path"@ {
        Some(match both(required(args, "path"@), required(args, "contents"@)) {
            Ok((path, contents)) => Ok(RequestView::WritePath { path, contents }),
            Err(e) => Err(e),
        })
    } else if name == "list_path"@ {
        Some(match required(args, "path"@) {
            Ok(path) => Ok(RequestView::ListPath { path }),
            Err(e) => Err(e),
        })
    } else if name == "delete_path"@ {
        Some(match required(args, "path"@) {
            Ok(path) => Ok(RequestView::DeletePath { path, recursive: or(json::bool_field(args, "recursive"@), false) }),
            Err(e) => Err(e),
        })
    } else {
        None
    }
}

fn filesystem_request(name: &str, args: &Json) -> (r: Option<Result<Request, String>>)
    ensures
        maybe(r) == filesystem_call(name@, args@),
{
    if text::same(name, "read_path") {
        let path = match req_str(args, "path") {
            Ok(v) => v,
            Err(e) => return Some(Err(e)),
        };
        return Some(Ok(Request::ReadPath { path }));
    }
    if text::same(name, "write_path") {
        let path = match req_str(args, "path") {
            Ok(v) => v,
            Err(e) => return Some(Err(e)),
        };
        let contents = match req_str(args, "contents") {
            Ok(v) => v,
            Err(e) => return Some(Err(e)),
        };
        return Some(Ok(Request::WritePath { path, contents }));
    }
    if text::same(name, "list_path") {
        let path = match req_str(args, "path") {
            Ok(v) => v,
            Err(e) => return Some(Err(e)),
        };
        return Some(Ok(Request::ListPath { path }));
    }
    if text::same(name, "delete_path") {
        let path = match req_str(args, "path") {
            Ok(v) => v,
            Err(e) => return Some(Err(e)),
        };
        return Some(Ok(Request::DeletePath { path, recursive: args.get_bool("recursive").unwrap_or(false) }));
    }
    None
}

/// The calls that concern shell sessions.
pub open spec fn terminal_call(name: Seq<char>, args: JsonView) -> Option<
    Result<RequestView, Seq<char>>,
> {
    if name == "terminal_open"@ {
        Some(Ok(RequestView::TerminalOpen { cwd: json::text_field(args, "cwd"@) }))
    } else if name == "terminal_run"@ {
        Some(match both(required(args, "id"@), required(args, "command"@)) {
            Ok((id, command)) => Ok(RequestView::TerminalRun { id, command, timeout_ms: low_bits(or(json::u64_field(args, "timeout_ms"@), 0)) }),
            Err(e) => Err(e),
        })
    } else if name == "terminal_read"@ {
        Some(match required(args, "id"@) {
            Ok(id) => Ok(RequestView::TerminalRead { id }),
            Err(e) => Err(e),
        })
    } else if name == "terminal_close"@ {
        Some(match required(args, "id"@) {
            Ok(id) => Ok(RequestView::TerminalClose { id }),
            Err(e) => Err(e),
        })
    } else if name == "terminal_list"@ {
        Some(Ok(RequestView::TerminalList))
    } else {
        None
    }
}

fn terminal_request(name: &str, args: &Json) -> (r: Option<Result<Request, String>>)
    ensures
        maybe(r) == terminal_call(name@, args@),
{
    if text::same(name, "terminal_open") {
        return Some(Ok(Request::TerminalOpen { cwd: args.get_str("cwd") }));
    }
    if text::same(name, "terminal_run") {
        let id = match req_str(args, "id") {
            Ok(v) => v,
            Err(e) => return Some(Err(e)),
        };
        let command = match req_str(args, "command") {
            Ok(v) => v,
            Err(e) => return Some(Err(e)),
        };
        return Some(Ok(Request::TerminalRun { id, command, timeout_ms: low_u32(args.get_u64("timeout_ms"), 0) }));
    }
    if text::same(name, "terminal_read") {
        let id = match req_str(args, "id") {
            Ok(v) => v,
            Err(e) => return Some(Err(e)),
        };
        return Some(Ok(Request::TerminalRead { id }));
    }
    if text::same(name, "terminal_close") {
        let id = match req_str(args, "id") {
            Ok(v) => v,
            Err(e) => return Some(Err(e)),
        };
        return Some(Ok(Request::TerminalClose { id }));
    }
    if text::same(name, "terminal_list") {
        return Some(Ok(Request::TerminalList));
    }
    None
}

/// The calls that concern settings and the process itself.
pub open spec fn settings_call(name: Seq<char>, args: JsonView) -> Option<
    Result<RequestView, Seq<char>>,
> {
    if name == "list_config"@ {
        Some(Ok(RequestView::ListConfig { prefix: json::text_field(args, "prefix"@) }))
    } else if name == "read_config"@ {
        Some(match required(args, "key"@) {
            Ok(key) => Ok(RequestView::ReadConfig { key }),
            Err(e) => Err(e),
        })
    } else if name == "set_config"@ {
        Some(match both(required(args, "key"@), required(args, "value"@)) {
            Ok((key, value)) => Ok(RequestView::SetConfig { key, value }),
            Err(e) => Err(e),
        })
    } else if name == "restart_orchestrator"@ {
        Some(match required(args, "reason"@) {
            Ok(reason) => Ok(RequestView::Restart { reason, resume: or(json::bool_field(args, "resume"@), true) }),
            Err(e) => Err(e),
        })
    } else {
        None
    }
}

fn settings_request(name: &str, args: &Json) -> (r: Option<Result<Request, String>>)
    ensures
        maybe(r) == settings_call(name@, args@),
{
    if text::same(name, "list_config") {
        return Some(Ok(Request::ListConfig { prefix: args.get_str("prefix") }));
    }
    if text::same(name, "read_config") {
        let key = match req_str(args, "key") {
            Ok(v) => v,
            Err(e) => return Some(Err(e)),
        };
        return Some(Ok(Request::ReadConfig { key }));
    }
    if text::same(name, "set_config") {
        let key = match req_str(args, "key") {
            Ok(v) => v,
            Err(e) => return Some(Err(e)),
        };
        let value = match req_str(args, "value") {
            Ok(v) => v,
            Err(e) => return Some(Err(e)),
        };
        return Some(Ok(Request::SetConfig { key, value }));
    }
    if text::same(name, "restart_orchestrator") {
        let reason = match req_str(args, "reason") {
            Ok(v) => v,
            Err(e) => return Some(Err(e)),
        };
        return Some(Ok(Request::Restart { reason, resume: args.get_bool("resume").unwrap_or(true) }));
    }
    None
}

/// The first decision that was made, of two.
pub open spec fn first<A>(a: Option<A>, b: Option<A>) -> Option<A> {
    match a {
        Some(_) => a,
        None => b,
    }
}

/// The built-in call a name and its arguments make, if the name is a
/// built-in's.
pub open spec fn builtin_call(name: Seq<char>, args: JsonView) -> Option<
    Result<RequestView, Seq<char>>,
> {
    first(
        memory_call(name, args),
        first(
            sandbox_call(name, args),
            first(
                source_call(name, args),
                first(
                    dependency_call(name, args),
                    first(
                        revision_call(name, args),
                        first(
                            filesystem_call(name, args),
                            first(terminal_call(name, args), settings_call(name, args)),
                        ),
                    ),
                ),
            ),
        ),
    )
}

/// What a call asks for. A name that is no built-in's must be a hot-loaded
/// tool component's.
pub open spec fn call(name: Seq<char>, args: JsonView) -> Result<RequestView, Seq<char>> {
    match builtin_call(name, args) {
        Some(d) => d,
        None => Ok(RequestView::Component { name }),
    }
}

/// What a call with these arguments asks for.
pub fn request_for(name: &str, args: &Json) -> (r: Result<Request, String>)
    ensures
        decided(r) == call(name@, args@),
{
    if let Some(d) = memory_request(name, args) {
        return d;
    }
    if let Some(d) = sandbox_request(name, args) {
        return d;
    }
    if let Some(d) = source_request(name, args) {
        return d;
    }
    if let Some(d) = dependency_request(name, args) {
        return d;
    }
    if let Some(d) = revision_request(name, args) {
        return d;
    }
    if let Some(d) = filesystem_request(name, args) {
        return d;
    }
    if let Some(d) = terminal_request(name, args) {
        return d;
    }
    if let Some(d) = settings_request(name, args) {
        return d;
    }
    Ok(Request::Component { name: name.to_owned() })
}

/// What is answered to a call that a read-only mode refuses.
pub open spec fn refusal(name: Seq<char>, mode: Seq<char>) -> Seq<char> {
    "'"@ + name + "' changes things, and this conversation is in "@ + mode
        + " mode. Switch to agent mode to run it."@
}

/// What a tool call comes to. Withholding a tool from the definitions is not
/// enough on its own: a model can still name one it saw earlier, so the mode
/// is enforced here, where the call would actually happen.
pub open spec fn invocation(
    mode: Seq<char>,
    access: Access,
    modes: Seq<ModeInfo>,
    name: Seq<char>,
    args_json: Seq<char>,
) -> Result<RequestView, Seq<char>> {
    if withholds(modes, mode) && changes_things(name, access, modes) {
        Err(refusal(name, mode))
    } else {
        match json::parsed(args_json) {
            Err(e) => Err("arguments were not valid JSON: "@ + e),
            Ok(args) => call(name, args),
        }
    }
}

/// Decides what a tool call comes to: a request to the harness, or a message
/// to the model that says why there is none.
pub fn invoke(
    mode: &str,
    access: Access,
    modes: &Vec<ModeInfo>,
    name: &str,
    args_json: &str,
) -> (r: Result<Request, String>)
    ensures
        decided(r) == invocation(mode@, access, modes@, name@, args_json@),
{
    if read_only(modes, mode) && is_mutating(name, access, modes) {
        return Err(
            "'".to_owned().concat(name).concat(
                "' changes things, and this conversation is in ",
            ).concat(mode).concat(" mode. Switch to agent mode to run it."),
        );
    }
    match json::parse(args_json) {
        Err(e) => Err("arguments were not valid JSON: ".to_owned().concat(e.as_str())),
        Ok(args) => request_for(name, &args),
    }
}

// --- answers ----------------------------------------------------------------

/// What the harness answers to a request.
#[derive(Debug, PartialEq, Eq)]
pub enum Reply {
    /// Words, or why there are none.
    Text(Result<String, String>),
    /// A note was saved.
    Saved,
    /// The note under one key.
    Note(Option<String>),
    /// Every key with the note under it.
    Notes(Vec<(String, Option<String>)>),
    /// A file was written, or why not.
    Written(Result<(), String>),
    /// What a sandbox command left behind.
    Executed(ExecResult),
    /// The verdict on a change, and how long it took as shown.
    Built(CompileReport, String),
    /// Dependencies, or why they are not known.
    Dependencies(Result<Vec<Dependency>, String>),
    /// File names, or why they are not known.
    Files(Result<Vec<String>, String>),
    /// Revisions.
    Revisions(Vec<RevisionInfo>),
    /// The members of a directory, or why they are not known.
    Listing(Result<Vec<FsEntry>, String>),
    /// What a terminal command printed, or why it did not run.
    Output(Result<TerminalOutput, String>),
    /// Open sessions.
    Sessions(Vec<TerminalInfo>),
    /// Settings.
    Settings(Vec<ConfigEntry>),
    /// One setting.
    Setting(Option<ConfigEntry>),
}

/// Whether a reply is of the kind that answers a request.
pub open spec fn answers(request: Request, reply: Reply) -> bool {
    match request {
        Request::Remember { .. } => reply is Saved,
        Request::Recall { key } => if key is Some {
            reply is Note
        } else {
            reply is Notes
        },
        Request::Exec { .. } => reply is Executed,
        Request::WriteFile { .. } => reply is Written,
        Request::NewTool { .. } => reply is Built,
        Request::WriteCode { .. } => reply is Built,
        Request::PatchCode { .. } => reply is Built,
        Request::AddDependency { .. } => reply is Built,
        Request::RemoveDependency { .. } => reply is Built,
        Request::ListDependencies { .. } => reply is Dependencies,
        Request::ListCode { .. } => reply is Files,
        Request::History { .. } => reply is Revisions,
        Request::ListPath { .. } => reply is Listing,
        Request::TerminalRun { .. } => reply is Output,
        Request::TerminalList => reply is Sessions,
        Request::ListConfig { .. } => reply is Settings,
        Request::ReadConfig { .. } => reply is Setting,
        _ => reply is Text,
    }
}

/// One remembered note on a line.
pub open spec fn note_line(note: (String, Option<String>)) -> Seq<char> {
    note.0@ + ": "@ + or(text_of(note.1), Seq::empty())
}

/// Remembered notes, one on a line.
pub open spec fn notes_text(notes: Seq<(String, Option<String>)>) -> Seq<char> {
    if notes.len() == 0 {
        "nothing remembered yet"@
    } else {
        joined(notes.map_values(|n: (String, Option<String>)| note_line(n)), "\n"@)
    }
}

/// Remembered notes, one on a line.
pub fn format_notes(notes: &Vec<(String, Option<String>)>) -> (r: String)
    ensures
        r@ == notes_text(notes@),
{
    if notes.len() == 0 {
        return "nothing remembered yet".to_owned();
    }
    let ghost all = notes@.map_values(|n: (String, Option<String>)| note_line(n));
    let mut lines: Vec<String> = Vec::new();
    for i in 0..notes.len()
        invariant
            all == notes@.map_values(|n: (String, Option<String>)| note_line(n)),
            texts(lines@) == all.take(i as int),
    {
        let ghost had = lines@;
        let value = match &notes[i].1 {
            Some(v) => v.clone(),
            None => String::new(),
        };
        let line = notes[i].0.clone().concat(": ").concat(value.as_str());
        lines.push(line);
        proof {
            text::lemma_texts_push(had, line);
            assert(line@ == note_line(notes@[i as int]));
            assert(all.take(i + 1) =~= all.take(i as int).push(all[i as int]));
        }
    }
    assert(all.take(notes@.len() as int) =~= all);
    text::join(&lines, "\n")
}

/// What the model reads of the answer to a request.
pub open spec fn conclusion(request: Request, reply: Reply) -> Result<Seq<char>, Seq<char>> {
    match reply {
        Reply::Saved => match request {
            Request::Remember { key, .. } => Ok("remembered '"@ + key@ + "'"@),
            _ => arbitrary(),
        },
        Reply::Note(note) => match (request, note) {
            (_, Some(value)) => Ok(value@),
            (Request::Recall { key: Some(key) }, None) => Err(
                "nothing remembered under '"@ + key@ + "'"@,
            ),
            _ => arbitrary(),
        },
        Reply::Notes(notes) => Ok(notes_text(notes@)),
        Reply::Written(Ok(_)) => Ok("written"@),
        Reply::Written(Err(e)) => Err(e@),
        Reply::Executed(result) => Ok(report::exec_text(result)),
        Reply::Built(result, seconds) => Ok(report::report_text(result, seconds@)),
        Reply::Dependencies(Ok(deps)) => Ok(report::dependencies_text(deps@)),
        Reply::Dependencies(Err(e)) => Err(e@),
        Reply::Files(Ok(files)) => Ok(joined(texts(files@), "\n"@)),
        Reply::Files(Err(e)) => Err(e@),
        Reply::Revisions(rows) => Ok(report::history_text(rows@)),
        Reply::Listing(Ok(entries)) => Ok(report::listing_text(entries@)),
        Reply::Listing(Err(e)) => Err(e@),
        Reply::Output(Ok(result)) => Ok(report::terminal_text(result)),
        Reply::Output(Err(e)) => Err(e@),
        Reply::Sessions(sessions) => Ok(report::sessions_text(sessions@)),
        Reply::Settings(entries) => Ok(report::settings_text(entries@)),
        Reply::Setting(Some(entry)) => Ok(report::setting_text(entry)),
        Reply::Setting(None) => match request {
            Request::ReadConfig { key } => Err("no setting named '"@ + key@ + "'"@),
            _ => arbitrary(),
        },
        Reply::Text(r) => match (request, r) {
            (Request::TerminalRead { .. }, Ok(s)) => Ok(report::fresh_text(s@)),
            _ => outcome_of(r),
        },
    }
}

/// Turns the harness's answer into what the model reads.
pub fn conclude(request: &Request, reply: Reply) -> (r: Result<String, String>)
    requires
        answers(*request, reply),
    ensures
        outcome_of(r) == conclusion(*request, reply),
{
    match reply {
        Reply::Saved => match request {
            Request::Remember { key, .. } => Ok(
                "remembered '".to_owned().concat(key.as_str()).concat("'"),
            ),
            _ => Err(String::new()),
        },
        Reply::Note(Some(value)) => Ok(value),
        Reply::Note(None) => match request {
            Request::Recall { key: Some(key) } => Err(
                "nothing remembered under '".to_owned().concat(key.as_str()).concat("'"),
            ),
            _ => Err(String::new()),
        },
        Reply::Notes(notes) => Ok(format_notes(&notes)),
        Reply::Written(Ok(_)) => Ok("written".to_owned()),
        Reply::Written(Err(e)) => Err(e),
        Reply::Executed(result) => Ok(report::format_exec(&result)),
        Reply::Built(result, seconds) => Ok(report::format_report(&result, seconds.as_str())),
        Reply::Dependencies(Ok(deps)) => Ok(report::format_dependencies(&deps)),
        Reply::Dependencies(Err(e)) => Err(e),
        Reply::Files(Ok(files)) => Ok(text::join(&files, "\n")),
        Reply::Files(Err(e)) => Err(e),
        Reply::Revisions(rows) => Ok(report::format_history(&rows)),
        Reply::Listing(Ok(entries)) => Ok(report::format_listing(&entries)),
        Reply::Listing(Err(e)) => Err(e),
        Reply::Output(Ok(result)) => Ok(report::format_terminal(&result)),
        Reply::Output(Err(e)) => Err(e),
        Reply::Sessions(sessions) => Ok(report::format_sessions(&sessions)),
        Reply::Settings(entries) => Ok(report::format_settings(&entries)),
        Reply::Setting(Some(entry)) => Ok(report::format_setting(&entry)),
        Reply::Setting(None) => match request {
            Request::ReadConfig { key } => Err(
                "no setting named '".to_owned().concat(key.as_str()).concat("'"),
            ),
            _ => Err(String::new()),
        },
        Reply::Text(Ok(s)) => match request {
            Request::TerminalRead { .. } => Ok(report::format_fresh(s.as_str())),
            _ => Ok(s),
        },
        Reply::Text(Err(e)) => Err(e),
    }
}

// --- laws -------------------------------------------------------------------

/// In a read-only mode a call that changes something is refused, whatever its
/// arguments are.
pub proof fn law_read_only_refuses_changes(
    mode: Seq<char>,
    access: Access,
    modes: Seq<ModeInfo>,
    name: Seq<char>,
    args_json: Seq<char>,
)
    requires
        withholds(modes, mode),
        changes_things(name, access, modes),
    ensures
        invocation(mode, access, modes, name, args_json) == Err::<RequestView, Seq<char>>(
            refusal(name, mode),
        ),
{
}

/// No note can be saved under a reserved key, so the index of notes is never
/// overwritten by a note.
pub proof fn law_reserved_keys_are_refused(name: Seq<char>, args: JsonView)
    ensures
        call(name, args) matches Ok(RequestView::Remember { key, .. }) ==> !begins(key, "__"@),
{
}

/// Whether an argument of a call is this text.
pub open spec fn says(args: JsonView, key: Seq<char>, value: Seq<char>) -> bool {
    json::field(args, key) == Some(JsonView::Text(value))
}

/// How long a call may take: what it says, or a default.
pub open spec fn allows(args: JsonView, timeout_ms: u32, default: u32) -> bool {
    match json::field(args, "timeout_ms"@) {
        Some(JsonView::UInt(n)) => n <= u32::MAX ==> timeout_ms == n,
        _ => timeout_ms == default,
    }
}

/// Whether a truth value is the argument of a name, or the default where there is
/// none.
pub open spec fn chooses(args: JsonView, key: Seq<char>, value: bool, default: bool) -> bool {
    match json::field(args, key) {
        Some(JsonView::Bool(b)) => value == b,
        _ => value == default,
    }
}

/// Whether an optional text is the argument of a name.
pub open spec fn may_say(args: JsonView, key: Seq<char>, value: Option<Seq<char>>) -> bool {
    match json::field(args, key) {
        Some(JsonView::Text(s)) => value == Some(s),
        _ => value is None,
    }
}

/// Whether a target is the one that the `target` argument writes.
pub open spec fn aims(args: JsonView, target: ModTargetView) -> bool {
    match target {
        ModTargetView::AgentSelf => says(args, "target"@, "self"@) || says(
            args,
            "target"@,
            "agent"@,
        ),
        ModTargetView::Tool(name) => says(args, "target"@, "tool"@ + seq![':'] + name),
        ModTargetView::Gateway(name) => says(args, "target"@, "gateway"@ + seq![':'] + name),
    }
}

/// Whether a rollback target is the one that the `target` argument writes.
pub open spec fn aims_back(args: JsonView, target: RollbackTargetView) -> bool {
    match target {
        RollbackTargetView::AgentSelf => says(args, "target"@, "self"@) || says(
            args,
            "target"@,
            "agent"@,
        ),
        RollbackTargetView::WholeSystem => says(args, "target"@, "system"@) || says(
            args,
            "target"@,
            "all"@,
        ),
        RollbackTargetView::Tool(name) => says(args, "target"@, "tool"@ + seq![':'] + name),
        RollbackTargetView::Gateway(name) => says(args, "target"@, "gateway"@ + seq![':'] + name),
    }
}

/// Whether a request is what a call says: the one its name stands for, with every field
/// from the argument of that field's own name.
pub open spec fn said_by(r: RequestView, name: Seq<char>, args: JsonView) -> bool {
    match r {
        RequestView::Remember { key, value } => name == "remember"@ && says(args, "key"@, key)
            && says(args, "value"@, value),
        RequestView::Recall { key } => name == "recall"@ && may_say(args, "key"@, key),
        RequestView::Exec { command, timeout_ms } => name == "exec"@ && says(
            args,
            "command"@,
            command,
        ) && allows(args, timeout_ms, 30_000),
        RequestView::WriteFile { path, contents } => name == "write_file"@ && says(
            args,
            "path"@,
            path,
        ) && says(args, "contents"@, contents),
        RequestView::ReadFile { path } => name == "read_file"@ && says(args, "path"@, path),
        RequestView::NewTool { name: tool, description } => name == "new_tool"@ && says(
            args,
            "name"@,
            tool,
        ) && says(args, "description"@, description),
        RequestView::WriteCode { target, path, contents } => name == "write_code"@ && aims(
            args,
            target,
        ) && says(args, "path"@, path) && says(args, "contents"@, contents),
        RequestView::PatchCode { target, path, old_text, new_text } => name == "patch_code"@
            && aims(args, target) && says(args, "path"@, path) && says(
            args,
            "old_text"@,
            old_text,
        ) && says(args, "new_text"@, new_text),
        RequestView::AddDependency { target, dependency } => name == "add_dependency"@ && aims(
            args,
            target,
        ) && says(args, "name"@, dependency.name) && says(args, "version"@, dependency.version)
            && chooses(args, "default_features"@, dependency.default_features, true) && (
        match json::field(args, "features"@) {
            Some(JsonView::Array(items)) => dependency.features == json::strings_in(items),
            _ => dependency.features.len() == 0,
        }),
        RequestView::RemoveDependency { target, name: dependency } => name
            == "remove_dependency"@ && aims(args, target) && says(args, "name"@, dependency),
        RequestView::ListDependencies { target } => name == "list_dependencies"@ && aims(
            args,
            target,
        ),
        RequestView::ReadCode { target, path } => name == "read_code"@ && aims(args, target)
            && says(args, "path"@, path),
        RequestView::ListCode { target } => name == "list_code"@ && aims(args, target),
        RequestView::Rollback { target, revision } => name == "rollback"@ && aims_back(
            args,
            target,
        ) && (match json::field(args, "revision"@) {
            Some(JsonView::UInt(n)) => revision == Some(n),
            _ => revision is None,
        }),
        RequestView::History { target } => name == "history"@ && aims_back(args, target),
        RequestView::ReadPath { path } => name == "read_path"@ && says(args, "path"@, path),
        RequestView::WritePath { path, contents } => name == "write_path"@ && says(
            args,
            "path"@,
            path,
        ) && says(args, "contents"@, contents),
        RequestView::ListPath { path } => name == "list_path"@ && says(args, "path"@, path),
        RequestView::DeletePath { path, recursive } => name == "delete_path"@ && says(
            args,
            "path"@,
            path,
        ) && chooses(args, "recursive"@, recursive, false),
        RequestView::TerminalOpen { cwd } => name == "terminal_open"@ && may_say(
            args,
            "cwd"@,
            cwd,
        ),
        RequestView::TerminalRun { id, command, timeout_ms } => name == "terminal_run"@ && says(
            args,
            "id"@,
            id,
        ) && says(args, "command"@, command) && allows(args, timeout_ms, 0),
        RequestView::TerminalRead { id } => name == "terminal_read"@ && says(args, "id"@, id),
        RequestView::TerminalClose { id } => name == "terminal_close"@ && says(args, "id"@, id),
        RequestView::TerminalList => name == "terminal_list"@,
        RequestView::ListConfig { prefix } => name == "list_config"@ && may_say(
            args,
            "prefix"@,
            prefix,
        ),
        RequestView::ReadConfig { key } => name == "read_config"@ && says(args, "key"@, key),
        RequestView::SetConfig { key, value } => name == "set_config"@ && says(args, "key"@, key)
            && says(args, "value"@, value),
        RequestView::Restart { reason, resume } => name == "restart_orchestrator"@ && says(
            args,
            "reason"@,
            reason,
        ) && chooses(args, "resume"@, resume, true),
        RequestView::Component { name: tool } => name == tool && arguments_of(name) is None,
    }
}

/// The text arguments that a built-in call cannot do without, in the order they are
/// asked for.
pub open spec fn arguments_of(name: Seq<char>) -> Option<Seq<Seq<char>>> {
    if name == "remember"@ {
        Some(seq!["key"@, "value"@])
    } else if name == "recall"@ {
        Some(seq![])
    } else if name == "exec"@ {
        Some(seq!["command"@])
    } else if name == "write_file"@ {
        Some(seq!["path"@, "contents"@])
    } else if name == "read_file"@ {
        Some(seq!["path"@])
    } else if name == "new_tool"@ {
        Some(seq!["name"@, "description"@])
    } else if name == "write_code"@ {
        Some(seq!["target"@, "path"@, "contents"@])
    } else if name == "patch_code"@ {
        Some(seq!["target"@, "path"@, "old_text"@, "new_text"@])
    } else if name == "read_code"@ {
        Some(seq!["target"@, "path"@])
    } else if name == "list_code"@ {
        Some(seq!["target"@])
    } else if name == "add_dependency"@ {
        Some(seq!["target"@, "name"@, "version"@])
    } else if name == "remove_dependency"@ {
        Some(seq!["target"@, "name"@])
    } else if name == "list_dependencies"@ || name == "rollback"@ || name == "history"@ {
        Some(seq!["target"@])
    } else if name == "read_path"@ {
        Some(seq!["path"@])
    } else if name == "write_path"@ {
        Some(seq!["path"@, "contents"@])
    } else if name == "list_path"@ || name == "delete_path"@ {
        Some(seq!["path"@])
    } else if name == "terminal_open"@ {
        Some(seq![])
    } else if name == "terminal_run"@ {
        Some(seq!["id"@, "command"@])
    } else if name == "terminal_read"@ || name == "terminal_close"@ {
        Some(seq!["id"@])
    } else if name == "terminal_list"@ || name == "list_config"@ {
        Some(seq![])
    } else if name == "read_config"@ {
        Some(seq!["key"@])
    } else if name == "set_config"@ {
        Some(seq!["key"@, "value"@])
    } else if name == "restart_orchestrator"@ {
        Some(seq!["reason"@])
    } else {
        None
    }
}

proof fn lemma_cut_halves(raw: Seq<char>)
    ensures
        match cut(raw, ':') {
            Some((kind, name)) => raw == kind + seq![':'] + name,
            None => true,
        },
{
    text::law_a_cut_is_at_the_first(raw, ':');
}

/// Every field of a request comes from the argument of that field's own name, and the
/// request is the one that the call's name stands for.
#[verifier::rlimit(50)]
pub proof fn law_every_field_comes_from_its_own_argument(name: Seq<char>, args: JsonView)
    ensures
        call(name, args) matches Ok(r) ==> said_by(r, name, args),
{
    if let Some(JsonView::Text(raw)) = json::field(args, "target"@) {
        lemma_cut_halves(raw);
    }
}

/// A name that stands for a target stands for that target and no other.
pub proof fn law_a_target_is_read_by_its_kind(name: Seq<char>)
    ensures
        mod_target("self"@) == Ok::<ModTargetView, Seq<char>>(ModTargetView::AgentSelf),
        mod_target("agent"@) == Ok::<ModTargetView, Seq<char>>(ModTargetView::AgentSelf),
        mod_target("tool"@ + seq![':'] + name) == Ok::<ModTargetView, Seq<char>>(
            ModTargetView::Tool(name),
        ),
        mod_target("gateway"@ + seq![':'] + name) == Ok::<ModTargetView, Seq<char>>(
            ModTargetView::Gateway(name),
        ),
        rollback_target("self"@) == Ok::<RollbackTargetView, Seq<char>>(
            RollbackTargetView::AgentSelf,
        ),
        rollback_target("agent"@) == Ok::<RollbackTargetView, Seq<char>>(
            RollbackTargetView::AgentSelf,
        ),
        rollback_target("system"@) == Ok::<RollbackTargetView, Seq<char>>(
            RollbackTargetView::WholeSystem,
        ),
        rollback_target("all"@) == Ok::<RollbackTargetView, Seq<char>>(
            RollbackTargetView::WholeSystem,
        ),
        rollback_target("tool"@ + seq![':'] + name) == Ok::<RollbackTargetView, Seq<char>>(
            RollbackTargetView::Tool(name),
        ),
        rollback_target("gateway"@ + seq![':'] + name) == Ok::<RollbackTargetView, Seq<char>>(
            RollbackTargetView::Gateway(name),
        ),
{
    reveal_strlit("self");
    reveal_strlit("agent");
    reveal_strlit("system");
    reveal_strlit("all");
    reveal_strlit("tool");
    reveal_strlit("gateway");
    assert("self"@[0] == 's' && "agent"@[0] == 'a' && "agent"@.len() == 5);
    assert("system"@[0] == 's' && "system"@.len() == 6 && "all"@.len() == 3 && "self"@.len() == 4);
    assert("tool"@.len() == 4 && "tool"@[0] == 't' && "gateway"@[0] == 'g');
    text::lemma_cut("tool"@, ':', name);
    text::lemma_cut("gateway"@, ':', name);
    let a = "tool"@ + seq![':'] + name;
    assert(a[0] == 't');
    let b = "gateway"@ + seq![':'] + name;
    assert(b[0] == 'g');
}

/// Whether the arguments that a call cannot do without are all there.
pub open spec fn complete(name: Seq<char>, args: JsonView) -> bool {
    arguments_of(name) matches Some(keys) && (forall|i: int|
        0 <= i < keys.len() ==> json::text_field(args, #[trigger] keys[i]) is Some)
}

/// A built-in call with every argument it cannot do without is made, unless its target
/// is none or the note's key is reserved; and one that lacks such an argument is not.
#[verifier::rlimit(50)]
pub proof fn law_a_complete_call_is_made(name: Seq<char>, args: JsonView)
    requires
        arguments_of(name) is Some,
    ensures
        complete(name, args) && (json::text_field(args, "target"@) matches Some(raw)
            ==> mod_target(raw) is Ok && rollback_target(raw) is Ok) && (json::text_field(
            args,
            "key"@,
        ) matches Some(key) ==> !begins(key, "__"@)) ==> call(name, args) is Ok,
        call(name, args) is Ok ==> complete(name, args),
{
    let keys = arguments_of(name)->0;
    if keys.len() > 0 {
        assert(json::text_field(args, keys[0]) is Some || !complete(name, args));
    }
    if keys.len() > 1 {
        assert(json::text_field(args, keys[1]) is Some || !complete(name, args));
    }
    if keys.len() > 2 {
        assert(json::text_field(args, keys[2]) is Some || !complete(name, args));
    }
    if keys.len() > 3 {
        assert(json::text_field(args, keys[3]) is Some || !complete(name, args));
    }
}

/// A call that lacks an argument is answered with that argument's name.
pub proof fn law_a_missing_argument_is_named(args: JsonView, key: Seq<char>)
    ensures
        json::text_field(args, key) is None ==> (required(args, key) matches Err(e)
            && text::occurs(e, key)),
        json::text_field(args, key) matches Some(s) ==> required(args, key) == Ok::<
            Seq<char>,
            Seq<char>,
        >(s),
{
    text::lemma_occurs_between("missing required argument '"@, key, "'"@);
}

/// A call that nothing withholds is decided by its name and its arguments alone: the
/// mode does not change what it asks for.
pub proof fn law_a_mode_only_refuses(
    mode: Seq<char>,
    other: Seq<char>,
    access: Access,
    modes: Seq<ModeInfo>,
    name: Seq<char>,
    args_json: Seq<char>,
)
    ensures
        ({
            let r = invocation(mode, access, modes, name, args_json);
            let s = invocation(other, access, modes, name, args_json);
            &&& r is Ok && s is Ok ==> r == s
            &&& !changes_things(name, access, modes) ==> r == s
            &&& !withholds(modes, mode) && !withholds(modes, other) ==> r == s
            &&& r matches Ok(q) ==> (json::parsed(args_json) matches Ok(args) && said_by(
                q,
                name,
                args,
            ))
            &&& !withholds(modes, mode) && json::parsed(args_json) is Err ==> (r matches Err(e)
                && text::ends(e, json::parsed(args_json)->Err_0))
        }),
{
    if let Ok(args) = json::parsed(args_json) {
        law_every_field_comes_from_its_own_argument(name, args);
    } else {
        let e = json::parsed(args_json)->Err_0;
        let all = "arguments were not valid JSON: "@ + e;
        assert(all.subrange(all.len() - e.len(), all.len() as int) =~= e);
    }
}

/// What the model reads of a request that failed is why it failed, word for word.
pub proof fn law_a_failure_is_handed_on(request: Request, reply: Reply)
    requires
        answers(request, reply),
    ensures
        match reply {
            Reply::Text(Err(e)) => conclusion(request, reply) == Err::<Seq<char>, Seq<char>>(e@),
            Reply::Written(Err(e)) => conclusion(request, reply) == Err::<Seq<char>, Seq<char>>(e@),
            Reply::Dependencies(Err(e)) => conclusion(request, reply) == Err::<
                Seq<char>,
                Seq<char>,
            >(e@),
            Reply::Files(Err(e)) => conclusion(request, reply) == Err::<Seq<char>, Seq<char>>(e@),
            Reply::Listing(Err(e)) => conclusion(request, reply) == Err::<Seq<char>, Seq<char>>(e@),
            Reply::Output(Err(e)) => conclusion(request, reply) == Err::<Seq<char>, Seq<char>>(e@),
            Reply::Note(None) => request matches Request::Recall { key: Some(key) } && (conclusion(
                request,
                reply,
            ) matches Err(e) && text::occurs(e, key@)),
            Reply::Setting(None) => request matches Request::ReadConfig { key } && (conclusion(
                request,
                reply,
            ) matches Err(e) && text::occurs(e, key@)),
            _ => conclusion(request, reply) is Ok,
        },
{
    match request {
        Request::Recall { key: Some(key) } => {
            text::lemma_occurs_between("nothing remembered under '"@, key@, "'"@);
        },
        Request::ReadConfig { key } => {
            text::lemma_occurs_between("no setting named '"@, key@, "'"@);
        },
        _ => {},
    }
}

/// What the model reads of a request that worked is what came back: a text as it is, a
/// note as it is, every note with its key, every file's name.
pub proof fn law_an_answer_is_handed_on(request: Request, reply: Reply, i: int)
    requires
        answers(request, reply),
    ensures
        match reply {
            Reply::Text(Ok(s)) => !(request is TerminalRead) ==> conclusion(request, reply) == Ok::<
                Seq<char>,
                Seq<char>,
            >(s@),
            Reply::Note(Some(s)) => conclusion(request, reply) == Ok::<Seq<char>, Seq<char>>(s@),
            Reply::Saved => request matches Request::Remember { key, .. } && (conclusion(
                request,
                reply,
            ) matches Ok(s) && text::occurs(s, key@)),
            Reply::Notes(notes) => 0 <= i < notes@.len() ==> (conclusion(request, reply) matches Ok(
                s,
            ) && text::occurs(s, notes@[i].0@) && (notes@[i].1 matches Some(v) ==> text::occurs(
                s,
                notes@[i].0@ + ": "@ + notes@[i].1->0@,
            ))),
            Reply::Files(Ok(files)) => 0 <= i < files@.len() ==> (conclusion(
                request,
                reply,
            ) matches Ok(s) && text::occurs(s, files@[i]@)),
            _ => true,
        },
{
    match reply {
        Reply::Saved => {
            if let Request::Remember { key, .. } = request {
                text::lemma_occurs_between("remembered '"@, key@, "'"@);
            }
        },
        Reply::Notes(notes) => {
            if 0 <= i < notes@.len() {
                let lines = notes@.map_values(|n: (String, Option<String>)| note_line(n));
                text::law_joining_loses_nothing(lines, "\n"@, i);
                let all = joined(lines, "\n"@);
                let line = note_line(notes@[i]);
                assert(lines[i] == line);
                let at = choose|at: int| text::occurs_at(all, line, at);
                let key = notes@[i].0@;
                assert(all.subrange(at, at + key.len()) =~= line.subrange(0, key.len() as int));
                assert(line.subrange(0, key.len() as int) =~= key);
                assert(text::occurs_at(all, key, at));
            }
        },
        Reply::Files(Ok(files)) => {
            if 0 <= i < files@.len() {
                text::law_joining_loses_nothing(texts(files@), "\n"@, i);
            }
        },
        _ => {},
    }
}

} // verus!
