//! Long-lived shell sessions on the host.
//!
//! A session keeps its working directory, environment and shell state between
//! commands, which is what separates it from a one-shot exec.
//!
//! Knowing when a command has finished is the hard part of driving a shell over
//! pipes: the stream never ends, so there is nothing to wait for. Each command
//! is therefore followed by an echo of a unique marker, and its output is what
//! arrives before that marker. The marker is what turns an endless stream back
//! into request and response.
use vstd::prelude::*;

use crate::config::{Config, TerminalSettings};
use crate::table::{sorted_keys, Table};
use crate::text;
use crate::text::{
    byte_len, decimal, find_last, joined, line_texts, number, occurs, occurs_at, occurs_in_any_case,
    outcome_of, tail_within, text_of, texts, trim_back,
};
use crate::time::{span_since, Span};
use crate::types::{TerminalInfo, TerminalOutput};

verus! {

// --- output -----------------------------------------------------------------

/// The command that echoes a marker in a way the shell understands.
pub open spec fn echo_command(shell: Seq<char>, marker: Seq<char>) -> Seq<char> {
    if occurs_in_any_case(shell, "powershell"@) || occurs_in_any_case(shell, "pwsh"@) {
        "Write-Output '"@ + marker + "'"@
    } else {
        "echo '"@ + marker + "'"@
    }
}

/// Echoes the marker in a way the configured shell understands.
pub fn echo_marker(cfg: &TerminalSettings, marker: &str) -> (r: String)
    ensures
        r@ == echo_command(cfg.shell@, marker@),
{
    if text::contains_ignore_case(cfg.shell.as_str(), "powershell") || text::contains_ignore_case(
        cfg.shell.as_str(),
        "pwsh",
    ) {
        // Write-Output rather than echo: it is not aliased away by a profile.
        "Write-Output '".to_owned().concat(marker).concat("'")
    } else {
        "echo '".to_owned().concat(marker).concat("'")
    }
}

/// Takes everything a buffer holds.
pub fn take(buffer: &mut String) -> (r: String)
    ensures
        r@ == old(buffer)@,
        final(buffer)@ == Seq::<char>::empty(),
{
    let mut out = String::new();
    std::mem::swap(&mut out, buffer);
    out
}

/// The lines of a list that do not hold a marker.
pub open spec fn lines_without(lines: Seq<Seq<char>>, marker: Seq<char>) -> Seq<Seq<char>>
    decreases lines.len(),
{
    if lines.len() == 0 {
        Seq::empty()
    } else if occurs(lines.last(), marker) {
        lines_without(lines.drop_last(), marker)
    } else {
        lines_without(lines.drop_last(), marker).push(lines.last())
    }
}

/// A text without the line breaks it starts with.
pub open spec fn past_breaks(s: Seq<char>) -> Seq<char>
    decreases s.len(),
{
    if s.len() > 0 && s[0] == '\n' {
        past_breaks(s.drop_first())
    } else {
        s
    }
}

/// What a command printed, and what is left for the next, once its marker has
/// arrived. Some shells echo the line that prints the marker, so the last
/// occurrence is the real completion, and lines that hold it are dropped.
pub open spec fn split_output(buffer: Seq<char>, marker: Seq<char>) -> Option<
    (Seq<char>, Seq<char>),
> {
    match find_last(buffer, marker) {
        None => None,
        Some(at) => Some(
            (
                trim_back(joined(lines_without(line_texts(buffer.take(at)), marker), "\n"@)),
                past_breaks(buffer.skip(at + marker.len())),
            ),
        ),
    }
}

fn keep_lines(lines: Vec<String>, marker: &str) -> (r: Vec<String>)
    ensures
        texts(r@) == lines_without(texts(lines@), marker@),
{
    let mut out: Vec<String> = Vec::new();
    let ghost all = texts(lines@);
    assert(texts(out@) =~= lines_without(all.take(0), marker@));
    for i in 0..lines.len()
        invariant
            all == texts(lines@),
            texts(out@) == lines_without(all.take(i as int), marker@),
    {
        let ghost had = out@;
        proof {
            assert(all.take(i + 1).drop_last() =~= all.take(i as int));
            assert(all.take(i + 1).last() == lines@[i as int]@);
        }
        if !text::contains(lines[i].as_str(), marker) {
            let line = lines[i].clone();
            out.push(line);
            proof {
                text::lemma_texts_push(had, line);
            }
        }
    }
    assert(all.take(lines@.len() as int) =~= all);
    out
}

/// Returns the output before the marker once it has arrived, consuming it.
pub fn split_at_marker(buffer: &mut String, marker: &str) -> (r: Option<String>)
    ensures
        match split_output(old(buffer)@, marker@) {
            None => r is None && final(buffer)@ == old(buffer)@,
            Some((output, rest)) => text_of(r) == Some(output) && final(buffer)@ == rest,
        },
{
    let chars = text::chars_of(buffer.as_str());
    let mark = text::chars_of(marker);
    match text::rfind(&chars, &mark) {
        None => None,
        Some(at) => {
            let n: usize = chars.len();
            let before = text::slice_of(&chars, 0, at);
            let mut from: usize = at + mark.len();
            proof {
                assert(chars@.take(at as int) =~= chars@.subrange(0, at as int));
            }
            while from < n && chars[from] == '\n'
                invariant
                    from <= n == chars@.len(),
                    past_breaks(chars@.skip(from as int)) == past_breaks(
                        chars@.skip(at + mark@.len()),
                    ),
                decreases n - from,
            {
                assert(chars@.skip(from as int).drop_first() =~= chars@.skip(from + 1));
                from = from + 1;
            }
            proof {
                assert(chars@.skip(from as int) =~= chars@.subrange(from as int, n as int));
            }
            *buffer = text::slice_of(&chars, from, n);
            let kept = keep_lines(text::lines(before.as_str()), marker);
            Some(text::trim_end(text::join(&kept, "\n").as_str()))
        },
    }
}

/// The end of a text that fits in a number of bytes, marked where something was
/// cut off.
pub open spec fn clipped(s: Seq<char>, cap: nat) -> Seq<char> {
    if byte_len(s) <= cap {
        s
    } else {
        "[earlier output trimmed]\n"@ + tail_within(s, cap)
    }
}

/// Keeps the tail: the end of a command's output is usually the part that says
/// what happened.
pub fn clip(output: String, cap: usize) -> (r: String)
    ensures
        r@ == clipped(output@, cap as nat),
{
    if text::bytes_in(output.as_str()) <= cap {
        return output;
    }
    "[earlier output trimmed]\n".to_owned().concat(text::tail(output.as_str(), cap).as_str())
}

/// Clipped output ends the way the output did.
pub proof fn law_clipping_keeps_the_end(s: Seq<char>, cap: nat)
    ensures
        text::ends(clipped(s, cap), tail_within(s, cap)),
        text::ends(s, tail_within(s, cap)),
        byte_len(tail_within(s, cap)) <= cap,
{
    text::lemma_tail_within(s, cap);
    let t = tail_within(s, cap);
    if byte_len(s) <= cap {
        assert(t == s || s.len() == 0);
        assert(s.skip(s.len() - t.len()) =~= t);
    } else {
        let c = clipped(s, cap);
        assert(c.skip(c.len() - t.len()) =~= t);
    }
}

/// What a poll of a command's output finds: its output once the marker is in,
/// whatever there is once the time is up, and nothing before that.
pub open spec fn polled(buffer: Seq<char>, marker: Seq<char>, cap: nat, expired: bool) -> (
    Option<(Seq<char>, bool, bool)>,
    Seq<char>,
) {
    match split_output(buffer, marker) {
        Some((output, rest)) => (
            Some((clipped(output, cap), false, byte_len(output) > cap)),
            rest,
        ),
        None => if expired {
            (Some((clipped(buffer, cap), true, byte_len(buffer) > cap)), Seq::empty())
        } else {
            (None, buffer)
        },
    }
}

/// What a terminal printed, as text.
pub open spec fn output_of(o: Option<TerminalOutput>) -> Option<(Seq<char>, bool, bool)> {
    match o {
        Some(t) => Some((t.output@, t.timed_out, t.truncated)),
        None => None,
    }
}

/// Looks for the end of a command in what has arrived. Whatever arrived by the
/// time the command's time is up is still worth returning: one that is merely
/// slow has usually printed something useful.
pub fn poll(buffer: &mut String, marker: &str, cap: usize, expired: bool) -> (r: Option<
    TerminalOutput,
>)
    ensures
        (output_of(r), final(buffer)@) == polled(old(buffer)@, marker@, cap as nat, expired),
{
    match split_at_marker(buffer, marker) {
        Some(output) => {
            let truncated = text::bytes_in(output.as_str()) > cap;
            Some(TerminalOutput { output: clip(output, cap), timed_out: false, truncated })
        },
        None => if expired {
            let partial = take(buffer);
            let truncated = text::bytes_in(partial.as_str()) > cap;
            Some(TerminalOutput { output: clip(partial, cap), timed_out: true, truncated })
        } else {
            None
        },
    }
}

/// What a buffer holds once a line has been added.
pub open spec fn with_line(buffer: Seq<char>, line: Seq<char>) -> Seq<char> {
    buffer + line + "\n"@
}

/// What a buffer holds once a line has been added: a runaway command must not
/// make it grow without bound, so of more than four times the cap only the tail
/// is kept, as many whole characters as fit in twice the cap.
pub open spec fn pumped(buffer: Seq<char>, line: Seq<char>, cap: nat) -> Seq<char> {
    let all = with_line(buffer, line);
    if byte_len(all) > cap * 4 {
        tail_within(all, cap * 2)
    } else {
        all
    }
}

/// Adds a line a shell wrote to what has not been read yet.
pub fn pump(buffer: &mut String, line: &str, cap: usize)
    requires
        cap * 4 <= usize::MAX,
    ensures
        final(buffer)@ == pumped(old(buffer)@, line@, cap as nat),
{
    buffer.append(line);
    buffer.append("\n");
    if text::bytes_in(buffer.as_str()) > cap * 4 {
        *buffer = text::tail(buffer.as_str(), cap * 2);
    }
}

/// However much a shell prints, what is held of it stays bounded.
pub proof fn law_buffers_stay_bounded(buffer: Seq<char>, line: Seq<char>, cap: nat)
    ensures
        byte_len(pumped(buffer, line, cap)) <= cap * 4,
{
    text::lemma_tail_within(with_line(buffer, line), cap * 2);
}

// --- sessions ---------------------------------------------------------------

/// One open session. Its process and its unread output are held elsewhere.
#[derive(Debug, PartialEq, Eq)]
pub struct Session {
    /// The directory it was opened in.
    pub cwd: String,
    /// The shell it runs.
    pub shell: String,
    /// How many commands it has been given.
    pub commands: u32,
    /// When it was last used.
    pub last_used: Span,
}

/// What is known of an open session.
pub struct SessionView {
    /// The directory it was opened in.
    pub cwd: Seq<char>,
    /// The shell it runs.
    pub shell: Seq<char>,
    /// How many commands it has been given.
    pub commands: u32,
    /// When it was last used.
    pub last_used: Span,
}

impl View for Session {
    type V = SessionView;

    open spec fn view(&self) -> SessionView {
        SessionView {
            cwd: self.cwd@,
            shell: self.shell@,
            commands: self.commands,
            last_used: self.last_used,
        }
    }
}

/// The open sessions.
pub struct Terminals {
    sessions: Table<Session>,
    counter: u64,
}

/// What is known of the open sessions.
#[verifier::ext_equal]
pub struct TerminalsView {
    /// Each by its id.
    pub sessions: Map<Seq<char>, SessionView>,
    /// How many ids and markers have been handed out.
    pub counter: u64,
}

/// The id of the session that takes a number.
pub open spec fn terminal_id(n: nat) -> Seq<char> {
    "term-"@ + decimal(n)
}

/// The marker that takes a number.
pub open spec fn marker_text(n: nat) -> Seq<char> {
    "__genesis_done_"@ + decimal(n) + "__"@
}

impl TerminalsView {
    /// Whether every id was handed out by the counter and every time is one.
    pub open spec fn ok(self) -> bool {
        &&& forall|id: Seq<char>| #[trigger]
            self.sessions.contains_key(id) ==> exists|n: nat|
                1 <= n <= self.counter && id == #[trigger] terminal_id(n)
        &&& forall|id: Seq<char>| #[trigger]
            self.sessions.contains_key(id) ==> self.sessions[id].last_used.ok()
    }

    /// The sessions that stay: those whose shell still runs and that have not
    /// gone idle.
    pub open spec fn reaped(self, exited: Seq<Seq<char>>, idle: Span, now: Span) -> TerminalsView {
        TerminalsView {
            sessions: Map::new(
                |id: Seq<char>|
                    self.sessions.contains_key(id) && !gone(
                        id,
                        self.sessions[id],
                        exited,
                        idle,
                        now,
                    ),
                |id: Seq<char>| self.sessions[id],
            ),
            counter: self.counter,
        }
    }

    /// One more session.
    pub open spec fn opened(self, session: SessionView) -> TerminalsView {
        TerminalsView {
            sessions: self.sessions.insert(terminal_id((self.counter + 1) as nat), session),
            counter: (self.counter + 1) as u64,
        }
    }

    /// One session less.
    pub open spec fn closed(self, id: Seq<char>) -> TerminalsView {
        TerminalsView { sessions: self.sessions.remove(id), counter: self.counter }
    }

    /// A session with another state.
    pub open spec fn changed(self, id: Seq<char>, session: SessionView) -> TerminalsView {
        TerminalsView { sessions: self.sessions.insert(id, session), counter: self.counter }
    }

    /// One more marker handed out.
    pub open spec fn marked(self) -> TerminalsView {
        TerminalsView { sessions: self.sessions, counter: (self.counter + 1) as u64 }
    }
}

/// Whether a session is dropped: its shell has exited, or it has been idle for
/// longer than it may. An idle time of nothing means it may be forever.
pub open spec fn gone(
    id: Seq<char>,
    session: SessionView,
    exited: Seq<Seq<char>>,
    idle: Span,
    now: Span,
) -> bool {
    exited.contains(id) || (idle.total() > 0 && span_since(now, session.last_used).total()
        > idle.total())
}

/// Why nothing can be done with terminals, if they are off.
pub const OFF: &'static str =
    "terminal access is off; set terminal.enabled in genesis.toml to turn it on";

/// Why no session can be opened: there are too many.
pub open spec fn limit_text(max: nat) -> Seq<char> {
    "already at the limit of "@ + decimal(max) + " terminal sessions; close one first"@
}

/// The message for a session that does not exist.
pub open spec fn no_session(id: Seq<char>) -> Seq<char> {
    "no terminal session "@ + id
}

/// What follows from asking for a command to be run: the marker that will end
/// it and the script that runs it, or why it is not run.
pub open spec fn run_plan(
    state: TerminalsView,
    enabled: bool,
    shell: Seq<char>,
    id: Seq<char>,
    command: Seq<char>,
    exited: bool,
) -> Result<(Seq<char>, Seq<char>), Seq<char>> {
    if !enabled {
        Err(OFF@)
    } else if !state.sessions.contains_key(id) {
        Err(no_session(id))
    } else if exited {
        Err("terminal session "@ + id + " has exited; open a new one"@)
    } else {
        let marker = marker_text(state.counter as nat);
        Ok((marker, command + "\n"@ + echo_command(shell, marker) + "\n"@))
    }
}

/// A command on its way to a shell.
#[derive(Debug, PartialEq, Eq)]
pub struct Script {
    /// The marker that ends its output.
    pub marker: String,
    /// What is written to the shell.
    pub script: String,
}

/// What a plan to run a command came to, as text.
pub open spec fn plan_of(r: Result<Script, String>) -> Result<(Seq<char>, Seq<char>), Seq<char>> {
    match r {
        Ok(s) => Ok((s.marker@, s.script@)),
        Err(e) => Err(e@),
    }
}

/// What is shown of a terminal.
pub struct InfoView {
    /// Its id.
    pub id: Seq<char>,
    /// The directory it was opened in.
    pub cwd: Seq<char>,
    /// The shell it runs.
    pub shell: Seq<char>,
    /// Whether its shell is still running.
    pub alive: bool,
    /// How many commands it has been given.
    pub commands: u32,
}

/// What is shown of each terminal of a list.
pub open spec fn info_views(items: Seq<TerminalInfo>) -> Seq<InfoView> {
    items.map_values(
        |t: TerminalInfo|
            InfoView {
                id: t.id@,
                cwd: t.cwd@,
                shell: t.shell@,
                alive: t.alive,
                commands: t.commands,
            },
    )
}

/// What is shown of a session.
pub open spec fn shown(id: Seq<char>, s: SessionView, alive: Seq<Seq<char>>) -> InfoView {
    InfoView { id, cwd: s.cwd, shell: s.shell, alive: alive.contains(id), commands: s.commands }
}

/// The directory a session starts in when none was asked for: the first root
/// the host's files can be reached under, or the project root.
pub open spec fn usual_dir(roots: Seq<Seq<char>>, root: Seq<char>) -> Seq<char> {
    if roots.len() > 0 {
        roots[0]
    } else {
        root
    }
}

/// The directory a session starts in when none was asked for.
pub fn starting_dir(cfg: &Config) -> (r: String)
    ensures
        r@ == usual_dir(texts(cfg.filesystem.roots@), cfg.root@),
{
    if cfg.filesystem.roots.len() > 0 {
        assert(texts(cfg.filesystem.roots@)[0] == cfg.filesystem.roots@[0]@);
        cfg.filesystem.roots[0].clone()
    } else {
        cfg.root.clone()
    }
}

/// The message for a starting directory that is none.
pub fn not_a_directory(dir: &str) -> (r: String)
    ensures
        r@ == dir@ + " is not a directory"@,
{
    dir.to_owned().concat(" is not a directory")
}

/// The message for a shell that does not start.
pub fn cannot_start(cfg: &TerminalSettings, e: &str) -> (r: String)
    ensures
        r@ == "cannot start "@ + cfg.shell@ + ": "@ + e@,
{
    "cannot start ".to_owned().concat(cfg.shell.as_str()).concat(": ").concat(e)
}

/// The message for a session that takes no input.
pub fn cannot_write(id: &str, e: &str) -> (r: String)
    ensures
        r@ == "cannot write to "@ + id@ + ": "@ + e@,
{
    "cannot write to ".to_owned().concat(id).concat(": ").concat(e)
}

/// How long a command is waited for: as long as was asked, or as usual.
pub fn wait_for(cfg: &TerminalSettings, timeout_ms: u32) -> (r: Span)
    ensures
        r == if timeout_ms == 0 {
            cfg.default_timeout
        } else {
            crate::time::span_of_millis(timeout_ms as u64)
        },
{
    if timeout_ms == 0 {
        cfg.default_timeout
    } else {
        Span::from_millis(timeout_ms as u64)
    }
}

spec fn session_map(m: Map<Seq<char>, Session>) -> Map<Seq<char>, SessionView> {
    m.map_values(|s: Session| s@)
}

impl View for Terminals {
    type V = TerminalsView;

    closed spec fn view(&self) -> TerminalsView {
        TerminalsView { sessions: session_map(self.sessions@), counter: self.counter }
    }
}

impl Terminals {
    #[verifier::type_invariant]
    spec fn well_formed(self) -> bool {
        TerminalsView { sessions: session_map(self.sessions@), counter: self.counter }.ok()
    }

    /// No sessions yet.
    pub fn new() -> (r: Terminals)
        ensures
            r@.sessions == Map::<Seq<char>, SessionView>::empty(),
            r@.counter == 0,
    {
        let r = Terminals { sessions: Table::new(), counter: 0 };
        assert(r@.sessions =~= Map::<Seq<char>, SessionView>::empty());
        r
    }

    fn require_enabled(cfg: &TerminalSettings) -> (r: Result<(), String>)
        ensures
            match r {
                Ok(_) => cfg.enabled,
                Err(e) => !cfg.enabled && e@ == OFF@,
            },
    {
        if cfg.enabled {
            Ok(())
        } else {
            Err(OFF.to_owned())
        }
    }

    /// Whether a session is open.
    pub fn has(&self, id: &str) -> (r: bool)
        ensures
            r == self@.sessions.contains_key(id@),
    {
        self.sessions.contains_key(id)
    }

    /// Whether another session or another command can be given a number.
    pub fn has_numbers_left(&self) -> (r: bool)
        ensures
            r == (self@.counter < u64::MAX),
    {
        self.counter < u64::MAX
    }

    /// Whether a session is open and can count another command.
    pub fn may_count(&self, id: &str) -> (r: bool)
        ensures
            r == (self@.sessions.contains_key(id@) && self@.sessions[id@].commands < u32::MAX),
    {
        match self.sessions.get(id) {
            Some(s) => s.commands < u32::MAX,
            None => false,
        }
    }

    /// Drops sessions whose shell has exited or that have gone idle.
    pub fn reap(&mut self, cfg: &TerminalSettings, exited: &Vec<String>, now: Span)
        requires
            cfg.idle_timeout.ok(),
            now.ok(),
        ensures
            final(self)@ == old(self)@.reaped(texts(exited@), cfg.idle_timeout, now),
    {
        proof {
            use_type_invariant(&*self);
        }
        let ghost was = self@;
        let ghost start = self.sessions@;
        assert forall|id: Seq<char>| #[trigger]
            start.contains_key(id) implies start[id]@.last_used.ok() by {
            assert(was.sessions.contains_key(id));
        }
        let mut table: Table<Session> = Table::new();
        assert(session_map(table@) =~= Map::<Seq<char>, SessionView>::empty());
        std::mem::swap(&mut table, &mut self.sessions);
        let keys = table.keys();
        let ghost names = texts(keys@);
        for i in 0..keys.len()
            invariant
                names == texts(keys@),
                cfg.idle_timeout.ok(),
                now.ok(),
                was.sessions == session_map(start),
                forall|id: Seq<char>| #[trigger]
                    start.contains_key(id) ==> start[id]@.last_used.ok(),
                forall|id: Seq<char>| #[trigger]
                    table@.contains_key(id) <==> start.contains_key(id) && !(
                    names.take(i as int).contains(id) && gone(
                        id,
                        start[id]@,
                        texts(exited@),
                        cfg.idle_timeout,
                        now,
                    )),
                forall|id: Seq<char>| #[trigger] table@.contains_key(id) ==> table@[id] == start[id],
        {
            let ghost had = table@;
            let key = &keys[i];
            let ghost k = names[i as int];
            assert(k == key@);
            assert(names.take(i + 1) =~= names.take(i as int).push(k));
            assert forall|id: Seq<char>| #[trigger]
                names.take(i + 1).contains(id) <==> names.take(i as int).contains(id) || id
                    == k by {
                if names.take(i as int).contains(id) {
                    let j = choose|j: int|
                        0 <= j < names.take(i as int).len() && names.take(i as int)[j] == id;
                    assert(names.take(i + 1)[j] == id);
                }
                assert(names.take(i + 1)[i as int] == k);
            }
            let drop = match table.get(key.as_str()) {
                None => false,
                Some(s) => {
                    let idle = !cfg.idle_timeout.is_zero() && cfg.idle_timeout.shorter_than(
                        &now.since(&s.last_used),
                    );
                    text::listed(exited, key.as_str()) || idle
                },
            };
            if drop {
                let _ = table.remove(key.as_str());
            }
        }
        assert(names.take(keys@.len() as int) =~= names);
        proof {
            assert(session_map(table@) =~= was.reaped(
                texts(exited@),
                cfg.idle_timeout,
                now,
            ).sessions);
            assert(was.reaped(texts(exited@), cfg.idle_timeout, now).ok());
        }
        self.sessions = table;
    }

    /// Makes room for one more session: drops what is gone, then sees whether
    /// another may be opened.
    pub fn make_room(&mut self, cfg: &TerminalSettings, exited: &Vec<String>, now: Span) -> (r:
        Result<(), String>)
        requires
            cfg.idle_timeout.ok(),
            now.ok(),
        ensures
            ({
                let left = old(self)@.reaped(texts(exited@), cfg.idle_timeout, now);
                if !cfg.enabled {
                    final(self)@ == old(self)@ && r is Err && r->Err_0@ == OFF@
                } else {
                    final(self)@ == left && match r {
                        Ok(_) => left.sessions.dom().len() < cfg.max_sessions,
                        Err(e) => left.sessions.dom().len() >= cfg.max_sessions && e@
                            == limit_text(cfg.max_sessions as nat),
                    }
                }
            }),
    {
        Self::require_enabled(cfg)?;
        self.reap(cfg, exited, now);
        let n: usize = self.sessions.len();
        assert(self@.sessions.dom() =~= self.sessions@.dom());
        if n >= cfg.max_sessions {
            return Err(
                "already at the limit of ".to_owned().concat(
                    number(cfg.max_sessions as u64).as_str(),
                ).concat(" terminal sessions; close one first"),
            );
        }
        Ok(())
    }

    /// Enters a session whose shell has started and returns its id, which no
    /// other session has.
    pub fn open(&mut self, cfg: &TerminalSettings, dir: &str, now: Span) -> (id: String)
        requires
            old(self)@.counter < u64::MAX,
            now.ok(),
        ensures
            id@ == terminal_id((old(self)@.counter + 1) as nat),
            !old(self)@.sessions.contains_key(id@),
            final(self)@ == old(self)@.opened(
                SessionView { cwd: dir@, shell: cfg.shell@, commands: 0, last_used: now },
            ),
    {
        proof {
            use_type_invariant(&*self);
        }
        let ghost was = self@;
        let n: u64 = self.counter + 1;
        let id = "term-".to_owned().concat(number(n).as_str());
        let session = Session {
            cwd: dir.to_owned(),
            shell: cfg.shell.clone(),
            commands: 0,
            last_used: now,
        };
        proof {
            assert(id@ == terminal_id(n as nat));
            if was.sessions.contains_key(id@) {
                let m = choose|m: nat| 1 <= m <= was.counter && id@ == #[trigger] terminal_id(m);
                assert(terminal_id(m).skip("term-"@.len() as int) =~= decimal(m));
                assert(terminal_id(n as nat).skip("term-"@.len() as int) =~= decimal(n as nat));
                text::lemma_decimal_injective(m, n as nat);
            }
            assert forall|k: Seq<char>| #[trigger]
                was.opened(session@).sessions.contains_key(k) implies exists|m: nat|
                1 <= m <= n && k == #[trigger] terminal_id(m) by {
                if k == id@ {
                    assert(k == terminal_id(n as nat));
                } else {
                    assert(was.sessions.contains_key(k));
                    let m = choose|m: nat| 1 <= m <= was.counter && k == #[trigger] terminal_id(m);
                    assert(k == terminal_id(m));
                }
            }
            assert(was.opened(session@).ok());
        }
        let mut table: Table<Session> = Table::new();
        assert(session_map(table@) =~= Map::<Seq<char>, SessionView>::empty());
        std::mem::swap(&mut table, &mut self.sessions);
        let _ = table.insert(id.clone(), session);
        self.counter = n;
        assert(session_map(table@) =~= was.opened(session@).sessions);
        self.sessions = table;
        id
    }

    /// Plans the running of a command in a session whose shell may have exited.
    /// What is left of the output so far is cleared: it would otherwise be
    /// reported as this command's.
    pub fn begin(
        &mut self,
        cfg: &TerminalSettings,
        id: &str,
        command: &str,
        exited: bool,
        buffer: &mut String,
    ) -> (r: Result<Script, String>)
        requires
            old(self)@.counter < u64::MAX,
        ensures
            plan_of(r) == run_plan(old(self)@, cfg.enabled, cfg.shell@, id@, command@, exited),
            final(buffer)@ == if r is Ok {
                Seq::<char>::empty()
            } else {
                old(buffer)@
            },
            final(self)@ == if cfg.enabled {
                old(self)@.marked()
            } else {
                old(self)@
            },
    {
        proof {
            use_type_invariant(&*self);
        }
        if let Err(e) = Self::require_enabled(cfg) {
            return Err(e);
        }
        let ghost was = self@;
        let marker = "__genesis_done_".to_owned().concat(number(self.counter).as_str()).concat(
            "__",
        );
        proof {
            assert forall|k: Seq<char>| #[trigger]
                was.marked().sessions.contains_key(k) implies exists|m: nat|
                1 <= m <= was.marked().counter && k == #[trigger] terminal_id(m) by {
                assert(was.sessions.contains_key(k));
                let m = choose|m: nat| 1 <= m <= was.counter && k == #[trigger] terminal_id(m);
                assert(k == terminal_id(m));
            }
            assert(was.marked().ok());
        }
        self.counter = self.counter + 1;
        if !self.sessions.contains_key(id) {
            return Err("no terminal session ".to_owned().concat(id));
        }
        if exited {
            return Err(
                "terminal session ".to_owned().concat(id).concat(" has exited; open a new one"),
            );
        }
        let _ = take(buffer);
        let script = command.to_owned().concat("\n").concat(
            echo_marker(cfg, marker.as_str()).as_str(),
        ).concat("\n");
        Ok(Script { marker, script })
    }

    /// Notes that a command was written to a session.
    pub fn wrote(&mut self, id: &str, now: Span)
        requires
            old(self)@.sessions.contains_key(id@),
            old(self)@.sessions[id@].commands < u32::MAX,
            now.ok(),
        ensures
            final(self)@ == old(self)@.changed(
                id@,
                SessionView {
                    commands: (old(self)@.sessions[id@].commands + 1) as u32,
                    last_used: now,
                    ..old(self)@.sessions[id@]
                },
            ),
    {
        proof {
            use_type_invariant(&*self);
        }
        let ghost was = self@;
        let mut table: Table<Session> = Table::new();
        assert(session_map(table@) =~= Map::<Seq<char>, SessionView>::empty());
        std::mem::swap(&mut table, &mut self.sessions);
        if let Some(s) = table.remove(id) {
            let commands: u32 = s.commands + 1;
            let session = Session { cwd: s.cwd, shell: s.shell, commands, last_used: now };
            let _ = table.insert(id.to_owned(), session);
            proof {
                assert(session_map(table@) =~= was.changed(id@, session@).sessions);
                assert(was.changed(id@, session@).ok()) by {
                    assert forall|k: Seq<char>| #[trigger]
                        was.changed(id@, session@).sessions.contains_key(k) implies exists|m: nat|
                        1 <= m <= was.counter && k == #[trigger] terminal_id(m) by {
                        assert(was.sessions.contains_key(k));
                    }
                }
            }
        }
        self.sessions = table;
    }

    /// Returns and clears whatever the shell has written since the last read.
    pub fn read(&mut self, id: &str, buffer: &mut String, now: Span) -> (r: Result<String, String>)
        requires
            now.ok(),
        ensures
            match r {
                Ok(s) => old(self)@.sessions.contains_key(id@) && s@ == old(buffer)@
                    && final(buffer)@ == Seq::<char>::empty() && final(self)@ == old(self)@.changed(
                    id@,
                    SessionView { last_used: now, ..old(self)@.sessions[id@] },
                ),
                Err(e) => !old(self)@.sessions.contains_key(id@) && e@ == no_session(id@)
                    && final(buffer)@ == old(buffer)@ && final(self)@ == old(self)@,
            },
    {
        proof {
            use_type_invariant(&*self);
        }
        let ghost was = self@;
        if !self.sessions.contains_key(id) {
            return Err("no terminal session ".to_owned().concat(id));
        }
        let mut table: Table<Session> = Table::new();
        assert(session_map(table@) =~= Map::<Seq<char>, SessionView>::empty());
        std::mem::swap(&mut table, &mut self.sessions);
        if let Some(s) = table.remove(id) {
            let session = Session {
                cwd: s.cwd,
                shell: s.shell,
                commands: s.commands,
                last_used: now,
            };
            let _ = table.insert(id.to_owned(), session);
            proof {
                assert(session_map(table@) =~= was.changed(id@, session@).sessions);
                assert(was.changed(id@, session@).ok()) by {
                    assert forall|k: Seq<char>| #[trigger]
                        was.changed(id@, session@).sessions.contains_key(k) implies exists|m: nat|
                        1 <= m <= was.counter && k == #[trigger] terminal_id(m) by {
                        assert(was.sessions.contains_key(k));
                    }
                }
            }
        }
        self.sessions = table;
        Ok(take(buffer))
    }

    /// Forgets a session.
    pub fn close(&mut self, id: &str) -> (r: Result<String, String>)
        ensures
            final(self)@ == old(self)@.closed(id@),
            outcome_of(r) == if old(self)@.sessions.contains_key(id@) {
                Ok("closed "@ + id@)
            } else {
                Err(no_session(id@))
            },
    {
        proof {
            use_type_invariant(&*self);
        }
        let ghost was = self@;
        let mut table: Table<Session> = Table::new();
        assert(session_map(table@) =~= Map::<Seq<char>, SessionView>::empty());
        std::mem::swap(&mut table, &mut self.sessions);
        let found = table.remove(id);
        proof {
            assert(session_map(table@) =~= was.closed(id@).sessions);
            assert(was.closed(id@).ok()) by {
                assert forall|k: Seq<char>| #[trigger]
                    was.closed(id@).sessions.contains_key(k) implies exists|m: nat|
                    1 <= m <= was.counter && k == #[trigger] terminal_id(m) by {
                    assert(was.sessions.contains_key(k));
                }
            }
        }
        self.sessions = table;
        match found {
            Some(_) => Ok("closed ".to_owned().concat(id)),
            None => Err("no terminal session ".to_owned().concat(id)),
        }
    }

    /// Forgets every session, for shutdown.
    pub fn close_all(&mut self)
        ensures
            final(self)@.sessions == Map::<Seq<char>, SessionView>::empty(),
            final(self)@.counter == old(self)@.counter,
    {
        let empty: Table<Session> = Table::new();
        assert(session_map(empty@) =~= Map::<Seq<char>, SessionView>::empty());
        self.sessions = empty;
    }

    /// The open sessions by id, each with whether its shell is alive.
    pub fn list(&self, alive: &Vec<String>) -> (r: Vec<TerminalInfo>)
        ensures
            info_views(r@) == sorted_keys(self@.sessions.dom()).map_values(
                |id: Seq<char>| shown(id, self@.sessions[id], texts(alive@)),
            ),
    {
        let ghost ids = self.sessions.key_list();
        let ghost all = ids.map_values(
            |id: Seq<char>| shown(id, self@.sessions[id], texts(alive@)),
        );
        let mut out: Vec<TerminalInfo> = Vec::new();
        assert(info_views(out@) =~= all.take(0));
        let n: usize = self.sessions.len();
        for i in 0..n
            invariant
                n == ids.len(),
                ids == self.sessions.key_list(),
                all == ids.map_values(
                    |id: Seq<char>| shown(id, self@.sessions[id], texts(alive@)),
                ),
                info_views(out@) == all.take(i as int),
        {
            let ghost had = out@;
            let id = self.sessions.key_at(i);
            let s = self.sessions.value_at(i);
            out.push(
                TerminalInfo {
                    id: id.clone(),
                    cwd: s.cwd.clone(),
                    shell: s.shell.clone(),
                    alive: text::listed(alive, id.as_str()),
                    commands: s.commands,
                },
            );
            proof {
                assert(all[i as int] == shown(ids[i as int], self@.sessions[ids[i as int]], texts(
                    alive@,
                )));
                assert(info_views(out@) =~= info_views(had).push(all[i as int]));
                assert(all.take(i + 1) =~= all.take(i as int).push(all[i as int]));
            }
        }
        assert(all.take(n as int) =~= all);
        assert(self@.sessions.dom() =~= self.sessions@.dom());
        out
    }
}

// --- laws -------------------------------------------------------------------

/// The id of a new session belongs to no other: opening one leaves every
/// session that was open as it was.
pub proof fn law_opening_disturbs_no_other(
    state: TerminalsView,
    session: SessionView,
    id: Seq<char>,
)
    requires
        state.ok(),
        state.counter < u64::MAX,
        state.sessions.contains_key(id),
    ensures
        state.opened(session).sessions.contains_key(id),
        state.opened(session).sessions[id] == state.sessions[id],
{
    let n = (state.counter + 1) as nat;
    let m = choose|m: nat| 1 <= m <= state.counter && id == #[trigger] terminal_id(m);
    if id == terminal_id(n) {
        assert(terminal_id(m).skip("term-"@.len() as int) =~= decimal(m));
        assert(terminal_id(n).skip("term-"@.len() as int) =~= decimal(n));
        text::lemma_decimal_injective(m, n);
    }
}

/// No two commands are ended by one marker.
pub proof fn law_markers_are_unique(a: nat, b: nat)
    requires
        marker_text(a) == marker_text(b),
    ensures
        a == b,
{
    let head = "__genesis_done_"@;
    let tail = "__"@;
    let x = marker_text(a);
    let y = marker_text(b);
    assert(x.subrange(head.len() as int, x.len() - tail.len()) =~= decimal(a));
    assert(y.subrange(head.len() as int, y.len() - tail.len()) =~= decimal(b));
    text::lemma_decimal_injective(a, b);
}

/// While a marker has not arrived the command is still running: until its time
/// is up nothing is reported, and nothing of what it printed is consumed.
pub proof fn law_nothing_is_consumed_while_waiting(buffer: Seq<char>, marker: Seq<char>, cap: nat)
    requires
        !occurs(buffer, marker),
    ensures
        polled(buffer, marker, cap, false) == (None::<(Seq<char>, bool, bool)>, buffer),
{
    text::lemma_find_last(buffer, marker);
}

/// A marker never shows: neither the output of a command nor what is left for
/// the next one holds it, even where the shell echoed the line that prints it.
pub proof fn law_a_marker_is_used_up(buffer: Seq<char>, marker: Seq<char>)
    requires
        marker.len() > 0,
        !marker.contains('\n'),
        occurs(buffer, marker),
    ensures
        match split_output(buffer, marker) {
            Some((output, rest)) => !occurs(output, marker) && !occurs(rest, marker),
            None => false,
        },
{
    text::lemma_find_last(buffer, marker);
    let at = find_last(buffer, marker)->0;
    // The output: what is left of the lines, none of which holds the marker.
    let lines = line_texts(buffer.take(at));
    let kept = lines_without(lines, marker);
    lemma_lines_without(lines, marker);
    reveal_strlit("\n");
    assert("\n"@ =~= seq!['\n']);
    text::lemma_joined_without(kept, '\n', marker);
    let all = joined(kept, "\n"@);
    let out = trim_back(all);
    text::lemma_trim_back(all);
    assert forall|i: int| !occurs_at(out, marker, i) by {
        if occurs_at(out, marker, i) {
            assert(all.subrange(i, i + marker.len()) =~= out.subrange(i, i + marker.len()));
            assert(occurs_at(all, marker, i));
        }
    }
    // What is left: an occurrence there would be a later one.
    let after = buffer.skip(at + marker.len());
    let rest = past_breaks(after);
    lemma_past_breaks(after);
    assert forall|i: int| !occurs_at(rest, marker, i) by {
        if occurs_at(rest, marker, i) {
            let j = buffer.len() - rest.len() + i;
            assert(buffer.subrange(j, j + marker.len()) =~= rest.subrange(i, i + marker.len()));
            assert(occurs_at(buffer, marker, j));
        }
    }
}

/// Every marker that is handed out stands on one line and is not empty.
pub proof fn law_markers_are_one_line(n: nat)
    ensures
        marker_text(n).len() > 0,
        !marker_text(n).contains('\n'),
{
    reveal_strlit("__genesis_done_");
    reveal_strlit("__");
    text::lemma_decimal_digits(n);
    let head = "__genesis_done_"@;
    let m = marker_text(n);
    assert forall|i: int| 0 <= i < m.len() implies m[i] != '\n' by {
        if i < head.len() {
            assert(m[i] == head[i]);
        } else if i < head.len() + decimal(n).len() {
            assert(m[i] == decimal(n)[i - head.len()]);
        } else {
            assert(m[i] == "__"@[i - head.len() - decimal(n).len()]);
        }
    }
}

proof fn lemma_lines_without(lines: Seq<Seq<char>>, marker: Seq<char>)
    ensures
        forall|i: int|
            0 <= i < lines_without(lines, marker).len() ==> !occurs(
                #[trigger] lines_without(lines, marker)[i],
                marker,
            ),
    decreases lines.len(),
{
    if lines.len() > 0 {
        lemma_lines_without(lines.drop_last(), marker);
        let had = lines_without(lines.drop_last(), marker);
        let now = lines_without(lines, marker);
        assert forall|i: int| 0 <= i < now.len() implies !occurs(#[trigger] now[i], marker) by {
            if i < had.len() {
                assert(now[i] == had[i]);
            }
        }
    }
}

proof fn lemma_past_breaks(s: Seq<char>)
    ensures
        past_breaks(s).len() <= s.len(),
        past_breaks(s) == s.skip(s.len() - past_breaks(s).len()),
    decreases s.len(),
{
    if s.len() > 0 && s[0] == '\n' {
        let t = s.drop_first();
        lemma_past_breaks(t);
        assert(past_breaks(s) =~= s.skip(s.len() - past_breaks(s).len()));
    } else {
        assert(s.skip(0) =~= s);
    }
}

/// Closing a session closes no other.
pub proof fn law_closing_disturbs_no_other(state: TerminalsView, id: Seq<char>, other: Seq<char>)
    requires
        other != id,
    ensures
        !state.closed(id).sessions.contains_key(id),
        state.closed(id).sessions.contains_key(other) == state.sessions.contains_key(other),
        state.sessions.contains_key(other) ==> state.closed(id).sessions[other]
            == state.sessions[other],
{
}

// --- what a command comes to -------------------------------------------------

/// What a command printed is what stands before its marker, as it was printed but for
/// the white space at its end; and what follows the marker stays for the next.
pub proof fn law_output_is_what_was_printed(
    out: Seq<char>,
    marker: Seq<char>,
    rest: Seq<char>,
)
    requires
        marker.len() > 0,
        !out.contains('\r'),
        !occurs(out, marker),
        forall|j: int|
            j > out.len() ==> !#[trigger] occurs_at(out + marker + rest, marker, j),
    ensures
        match split_output(out + marker + rest, marker) {
            Some((output, left)) => output == trim_back(out) && text::ends(rest, left) && (forall|
                k: int,
            |
                0 <= k < rest.len() - left.len() ==> #[trigger] rest[k] == '\n') && (left.len() > 0
                ==> left[0] != '\n'),
            None => false,
        },
{
    let buffer = out + marker + rest;
    let n = out.len() as int;
    assert(buffer.subrange(n, n + marker.len()) =~= marker);
    assert(occurs_at(buffer, marker, n));
    text::lemma_find_last(buffer, marker);
    let at = find_last(buffer, marker)->0;
    assert(at == n);
    assert(buffer.take(n) =~= out);
    assert(buffer.skip(n + marker.len()) =~= rest);
    // No line of the output holds the marker, so none is left out.
    let lines = line_texts(out);
    reveal_strlit("\n");
    assert("\n"@ =~= seq!['\n']);
    text::law_lines_make_up_the_text(out);
    let back = joined(lines, seq!['\n']);
    assert forall|i: int| 0 <= i < lines.len() implies !occurs(#[trigger] lines[i], marker) by {
        if occurs(lines[i], marker) {
            text::law_joining_loses_nothing(lines, seq!['\n'], i);
            lemma_occurs_through(back, lines[i], marker);
            if back == out {
            } else {
                text::lemma_occurs_within(Seq::empty(), back, seq!['\n'], marker);
                assert(Seq::<char>::empty() + back + seq!['\n'] =~= out);
            }
        }
    }
    lemma_all_kept(lines, marker);
    if back != out {
        text::law_the_end_is_trimmed(back, seq!['\n']);
    }
    lemma_breaks(rest);
    let left = past_breaks(rest);
    lemma_past_breaks(rest);
    assert(rest.subrange(rest.len() - left.len(), rest.len() as int) =~= left);
}

proof fn lemma_occurs_through(s: Seq<char>, mid: Seq<char>, part: Seq<char>)
    requires
        occurs(s, mid),
        occurs(mid, part),
    ensures
        occurs(s, part),
{
    let i = choose|i: int| occurs_at(s, mid, i);
    let j = choose|j: int| occurs_at(mid, part, j);
    assert(s.subrange(i + j, i + j + part.len()) =~= mid.subrange(j, j + part.len()));
    assert(occurs_at(s, part, i + j));
}

proof fn lemma_all_kept(lines: Seq<Seq<char>>, marker: Seq<char>)
    requires
        forall|i: int| 0 <= i < lines.len() ==> !occurs(#[trigger] lines[i], marker),
    ensures
        lines_without(lines, marker) == lines,
    decreases lines.len(),
{
    if lines.len() > 0 {
        let rest = lines.drop_last();
        assert forall|i: int| 0 <= i < rest.len() implies !occurs(#[trigger] rest[i], marker) by {
            assert(rest[i] == lines[i]);
        }
        lemma_all_kept(rest, marker);
        assert(!occurs(lines[lines.len() - 1], marker));
        assert(rest.push(lines.last()) =~= lines);
    }
}

proof fn lemma_breaks(s: Seq<char>)
    ensures
        forall|k: int| 0 <= k < s.len() - past_breaks(s).len() ==> #[trigger] s[k] == '\n',
        past_breaks(s).len() > 0 ==> past_breaks(s)[0] != '\n',
    decreases s.len(),
{
    if s.len() > 0 && s[0] == '\n' {
        let t = s.drop_first();
        lemma_breaks(t);
        assert forall|k: int| 0 <= k < s.len() - past_breaks(s).len() implies #[trigger] s[k]
            == '\n' by {
            if k > 0 {
                assert(t[k - 1] == s[k]);
            }
        }
    }
}

/// The lines that hold the marker, the command's own echo among them, are left out of
/// what it printed, and no others.
pub proof fn law_only_lines_with_the_marker_are_left_out(
    before: Seq<Seq<char>>,
    line: Seq<char>,
    after: Seq<Seq<char>>,
    marker: Seq<char>,
)
    ensures
        lines_without(before + seq![line] + after, marker) == lines_without(before, marker) + (
        if occurs(line, marker) {
            Seq::empty()
        } else {
            seq![line]
        }) + lines_without(after, marker),
        lines_without(Seq::empty(), marker).len() == 0,
{
    let one = seq![line];
    lemma_without_add(before + one, after, marker);
    lemma_without_add(before, one, marker);
    assert(one.drop_last() =~= Seq::<Seq<char>>::empty());
    assert(lines_without(Seq::<Seq<char>>::empty(), marker) == Seq::<Seq<char>>::empty());
    if occurs(line, marker) {
        assert(lines_without(one, marker) =~= Seq::<Seq<char>>::empty());
    } else {
        assert(lines_without(one, marker) =~= seq![line]);
    }
}

proof fn lemma_without_add(a: Seq<Seq<char>>, b: Seq<Seq<char>>, marker: Seq<char>)
    ensures
        lines_without(a + b, marker) == lines_without(a, marker) + lines_without(b, marker),
    decreases b.len(),
{
    if b.len() == 0 {
        assert(a + b =~= a);
        assert(lines_without(a, marker) + lines_without(b, marker) =~= lines_without(a, marker));
    } else {
        assert((a + b).drop_last() =~= a + b.drop_last());
        assert((a + b).last() == b.last());
        lemma_without_add(a, b.drop_last(), marker);
        if !occurs(b.last(), marker) {
            assert((lines_without(a, marker) + lines_without(b.drop_last(), marker)).push(b.last())
                =~= lines_without(a, marker) + lines_without(b.drop_last(), marker).push(b.last()));
        }
    }
}

/// Output that fits is shown as it is; of longer output the longest end that fits is
/// shown, and it says so.
pub proof fn law_output_that_fits_is_shown_whole(s: Seq<char>, cap: nat, n: int)
    ensures
        byte_len(s) <= cap ==> clipped(s, cap) == s,
        byte_len(s) > cap ==> clipped(s, cap).len() > tail_within(s, cap).len() && text::ends(
            clipped(s, cap),
            tail_within(s, cap),
        ),
        byte_len(s) > cap && tail_within(s, cap).len() < n <= s.len() ==> byte_len(
            s.skip(s.len() - n),
        ) > cap,
{
    reveal_strlit("[earlier output trimmed]\n");
    law_clipping_keeps_the_end(s, cap);
    if byte_len(s) > cap && tail_within(s, cap).len() < n <= s.len() {
        text::law_the_longest_end_is_kept(s, cap, n);
    }
}

/// A command that is done answers with what it printed; one that is not is waited for,
/// until its time is up: then what there is is the answer, and it says that it timed
/// out. An answer says that it was cut exactly where it was.
pub proof fn law_a_command_is_waited_for(
    buffer: Seq<char>,
    marker: Seq<char>,
    cap: nat,
    expired: bool,
)
    ensures
        ({
            let (answer, left) = polled(buffer, marker, cap, expired);
            &&& answer is Some <==> occurs(buffer, marker) || expired
            &&& answer is None ==> left == buffer
            &&& answer matches Some((output, timed_out, truncated)) ==> timed_out == !occurs(
                buffer,
                marker,
            ) && ({
                let all = match split_output(buffer, marker) {
                    Some((printed, _)) => printed,
                    None => buffer,
                };
                truncated == (byte_len(all) > cap) && output == clipped(all, cap)
            })
            &&& answer matches Some((_, true, _)) ==> left.len() == 0
        }),
{
    text::lemma_find_last(buffer, marker);
}

/// What a shell prints is kept line by line, and all of it as long as there is room;
/// where there is none the oldest goes.
pub proof fn law_lines_are_kept_in_order(buffer: Seq<char>, line: Seq<char>, cap: nat, n: int)
    ensures
        ({
            let all = buffer + line + seq!['\n'];
            let kept = pumped(buffer, line, cap);
            &&& byte_len(all) <= cap * 4 ==> kept == all
            &&& byte_len(all) > cap * 4 ==> text::ends(all, kept) && (kept.len() < n <= all.len()
                ==> byte_len(all.skip(all.len() - n)) > cap * 2)
        }),
{
    reveal_strlit("\n");
    assert("\n"@ =~= seq!['\n']);
    let all = buffer + line + seq!['\n'];
    text::lemma_tail_within(all, cap * 2);
    if tail_within(all, cap * 2).len() < n <= all.len() {
        text::law_the_longest_end_is_kept(all, cap * 2, n);
    }
}

/// A command is handed to its session as it is, on a line of its own, and a line that
/// prints its marker follows; it is refused only where terminals are off, there is no
/// such session, or its shell has exited.
pub proof fn law_a_command_is_handed_on_as_it_is(
    state: TerminalsView,
    enabled: bool,
    shell: Seq<char>,
    id: Seq<char>,
    command: Seq<char>,
    exited: bool,
)
    ensures
        run_plan(state, enabled, shell, id, command, exited) is Ok <==> enabled
            && state.sessions.contains_key(id) && !exited,
        run_plan(state, enabled, shell, id, command, exited) matches Ok((marker, script)) ==> marker
            == marker_text(state.counter as nat) && text::begins(script, command + seq!['\n'])
            && occurs(script.skip(command.len() as int + 1), marker) && script.last() == '\n',
        run_plan(state, enabled, shell, id, command, exited) matches Err(e) ==> !enabled || occurs(
            e,
            id,
        ),
{
    reveal_strlit("\n");
    assert("\n"@ =~= seq!['\n']);
    let marker = marker_text(state.counter as nat);
    let echo = echo_command(shell, marker);
    let script = command + "\n"@ + echo + "\n"@;
    let front = command + seq!['\n'];
    assert(script.subrange(0, front.len() as int) =~= front);
    assert(script.skip(command.len() as int + 1) =~= echo + "\n"@);
    text::lemma_occurs_between("Write-Output '"@, marker, "'"@);
    text::lemma_occurs_between("echo '"@, marker, "'"@);
    text::lemma_occurs_within(Seq::empty(), echo, "\n"@, marker);
    assert(Seq::<char>::empty() + echo + "\n"@ =~= echo + "\n"@);
    assert(script.last() == "\n"@.last());
    text::lemma_occurs_between("no terminal session "@, id, Seq::empty());
    assert("no terminal session "@ + id + Seq::<char>::empty() =~= no_session(id));
    text::lemma_occurs_between("terminal session "@, id, " has exited; open a new one"@);
}

/// The marker is printed in the shell's own way: by the command of the shell that is
/// configured, whatever case its name is in.
pub proof fn law_a_marker_is_printed_in_the_shells_way(shell: Seq<char>, marker: Seq<char>)
    ensures
        occurs_in_any_case(shell, "powershell"@) ==> text::begins(
            echo_command(shell, marker),
            "Write-Output '"@,
        ),
        occurs_in_any_case(shell, "pwsh"@) ==> text::begins(
            echo_command(shell, marker),
            "Write-Output '"@,
        ),
        !occurs_in_any_case(shell, "powershell"@) && !occurs_in_any_case(shell, "pwsh"@)
            ==> text::begins(echo_command(shell, marker), "echo '"@),
        text::ends(echo_command(shell, marker), marker + "'"@),
{
    let p = "Write-Output '"@;
    let e = "echo '"@;
    let q = marker + "'"@;
    let a = p + marker + "'"@;
    let b = e + marker + "'"@;
    assert(a.subrange(0, p.len() as int) =~= p);
    assert(b.subrange(0, e.len() as int) =~= e);
    assert(a.subrange(a.len() - q.len(), a.len() as int) =~= q);
    assert(b.subrange(b.len() - q.len(), b.len() as int) =~= q);
}

/// A session that is opened is found under the new id, as it was opened; every session
/// that stays is as it was, and one goes exactly where its shell has exited or it has
/// been idle too long.
pub proof fn law_sessions_stay_until_they_are_gone(
    state: TerminalsView,
    session: SessionView,
    exited: Seq<Seq<char>>,
    idle: Span,
    now: Span,
    id: Seq<char>,
)
    requires
        state.counter < u64::MAX,
    ensures
        state.opened(session).sessions.contains_key(terminal_id((state.counter + 1) as nat)),
        state.opened(session).sessions[terminal_id((state.counter + 1) as nat)] == session,
        state.opened(session).counter == state.counter + 1,
        state.reaped(exited, idle, now).counter == state.counter,
        state.reaped(exited, idle, now).sessions.contains_key(id) ==> state.sessions.contains_key(
            id,
        ) && state.reaped(exited, idle, now).sessions[id] == state.sessions[id]
            && !exited.contains(id) && (idle.total() > 0 ==> span_since(
            now,
            state.sessions[id].last_used,
        ).total() <= idle.total()),
        state.sessions.contains_key(id) && !state.reaped(exited, idle, now).sessions.contains_key(
            id,
        ) ==> exited.contains(id) || (idle.total() > 0 && span_since(
            now,
            state.sessions[id].last_used,
        ).total() > idle.total()),
        state.changed(id, session).sessions[id] == session,
        forall|other: Seq<char>|
            other != id && #[trigger] state.sessions.contains_key(other) ==> state.changed(
                id,
                session,
            ).sessions[other] == state.sessions[other],
        state.marked().sessions == state.sessions,
        state.marked().counter == state.counter + 1,
{
}

/// A session is shown as it is, under its own id, alive exactly where its shell runs.
pub proof fn law_a_session_is_shown_as_it_is(
    id: Seq<char>,
    s: SessionView,
    alive: Seq<Seq<char>>,
)
    ensures
        shown(id, s, alive).id == id,
        shown(id, s, alive).cwd == s.cwd,
        shown(id, s, alive).shell == s.shell,
        shown(id, s, alive).commands == s.commands,
        shown(id, s, alive).alive == alive.contains(id),
{
}

/// A session opens in the first root, or in the project's where there is none; the limit
/// and a session that is not there are told by name.
pub proof fn law_a_session_opens_where_it_may(
    roots: Seq<Seq<char>>,
    root: Seq<char>,
    max: nat,
    id: Seq<char>,
)
    ensures
        roots.len() > 0 ==> usual_dir(roots, root) == roots[0],
        roots.len() == 0 ==> usual_dir(roots, root) == root,
        occurs(limit_text(max), decimal(max)),
        text::ends(no_session(id), id),
{
    text::lemma_occurs_between(
        "already at the limit of "@,
        decimal(max),
        " terminal sessions; close one first"@,
    );
    text::lemma_at_the_end("no terminal session "@, id);
}

} // verus!
