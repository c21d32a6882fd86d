//! What a guest may link against and how long it may run.
//!
//! Every guest call gets a fresh store. That is what makes hot swapping safe:
//! no guest state survives a call, so swapping the component between calls can
//! never leave a half-migrated instance behind.
use vstd::prelude::*;

use crate::config::Config;
use crate::paths;
use crate::paths::last_name;
use crate::text;
use crate::text::text_of;
use crate::time::{duration_text, show, span_since, Clock, Span};

verus! {

/// How often the epoch counter advances, in milliseconds. A guest's budget is
/// looked at no more often than this, which bounds how long a runaway guest can
/// spin undetected.
pub const EPOCH_TICK_MS: u64 = 100;

// --- capabilities -----------------------------------------------------------

/// Which host capabilities a guest is allowed to link against.
#[derive(Debug, Clone, Copy, PartialEq, Eq, Structural)]
pub enum Caps {
    /// The agent: everything.
    Agent,
    /// Gateways: session management and sys only. No LLM, no exec, no devkit.
    Gateway,
    /// Tools: sys and the sandbox. No LLM, no session log, no self-modification.
    Tool,
}

/// What the host offers to guests.
#[derive(Debug, Clone, Copy, PartialEq, Eq, Structural)]
pub enum Interface {
    /// WASI itself.
    Wasi,
    /// Outgoing HTTP.
    Http,
    /// Logging, the clock, notes and configuration.
    Sys,
    /// Sessions and their logs.
    Session,
    /// Completions.
    Llm,
    /// Code execution.
    Sandbox,
    /// Calling tools.
    Tooling,
    /// Self-modification.
    Devkit,
    /// The host's files.
    Hostfs,
    /// Shell sessions on the host.
    Terminal,
    /// The process itself.
    Control,
    /// Changing the configuration.
    Configuration,
}

/// What a guest is linked against.
pub open spec fn interfaces(caps: Caps) -> Seq<Interface> {
    let common = seq![Interface::Wasi, Interface::Http, Interface::Sys];
    match caps {
        Caps::Agent => common + seq![
            Interface::Session,
            Interface::Llm,
            Interface::Sandbox,
            Interface::Tooling,
            Interface::Devkit,
            Interface::Hostfs,
            Interface::Terminal,
            Interface::Control,
            Interface::Configuration,
        ],
        Caps::Gateway => common + seq![Interface::Session],
        Caps::Tool => common + seq![Interface::Sandbox],
    }
}

/// What a guest is linked against, in the order it is linked.
pub fn granted(caps: Caps) -> (r: Vec<Interface>)
    ensures
        r@ == interfaces(caps),
{
    let mut out = vec![Interface::Wasi, Interface::Http, Interface::Sys];
    match caps {
        Caps::Agent => {
            out.push(Interface::Session);
            out.push(Interface::Llm);
            out.push(Interface::Sandbox);
            out.push(Interface::Tooling);
            out.push(Interface::Devkit);
            // Host access: only the agent gets these; tools stay on the sandbox.
            out.push(Interface::Hostfs);
            out.push(Interface::Terminal);
            out.push(Interface::Control);
            out.push(Interface::Configuration);
        },
        Caps::Gateway => {
            out.push(Interface::Session);
        },
        Caps::Tool => {
            out.push(Interface::Sandbox);
        },
    }
    assert(out@ =~= interfaces(caps));
    out
}

/// The calls of an interface that may take real time: they build, run or wait for
/// something outside the guest.
pub open spec fn slow_calls(i: Interface) -> Seq<Seq<char>> {
    match i {
        Interface::Session => seq!["available-tools"@],
        Interface::Llm => seq!["chat"@, "stream-open"@, "stream-next"@],
        Interface::Tooling => seq!["invoke"@],
        Interface::Devkit => seq![
            "new-tool"@,
            "write-file"@,
            "patch-file"@,
            "add-dependency"@,
            "remove-dependency"@,
            "rollback"@,
        ],
        Interface::Terminal => seq!["open"@, "run"@, "close"@, "sessions"@],
        Interface::Configuration => seq!["set"@],
        _ => Seq::empty(),
    }
}

/// Whether a call may take real time. That is not the guest spinning: when it comes
/// back, the guest has yielded.
pub fn may_block(interface: Interface, name: &str) -> (r: bool)
    ensures
        r == slow_calls(interface).contains(name@),
{
    let mut slow: Vec<&str> = Vec::new();
    match interface {
        Interface::Session => {
            slow.push("available-tools");
        },
        Interface::Llm => {
            slow.push("chat");
            slow.push("stream-open");
            slow.push("stream-next");
        },
        Interface::Tooling => {
            slow.push("invoke");
        },
        Interface::Devkit => {
            slow.push("new-tool");
            slow.push("write-file");
            slow.push("patch-file");
            slow.push("add-dependency");
            slow.push("remove-dependency");
            slow.push("rollback");
        },
        Interface::Terminal => {
            slow.push("open");
            slow.push("run");
            slow.push("close");
            slow.push("sessions");
        },
        Interface::Configuration => {
            slow.push("set");
        },
        _ => {},
    }
    let ghost all = slow_calls(interface);
    assert(slow@.len() == all.len());
    assert(forall|i: int| 0 <= i < slow@.len() ==> (#[trigger] slow@[i])@ == all[i]);
    for i in 0..slow.len()
        invariant
            all == slow_calls(interface),
            slow@.len() == all.len(),
            forall|j: int| 0 <= j < slow@.len() ==> (#[trigger] slow@[j])@ == all[j],
            forall|j: int| 0 <= j < i ==> all[j] != name@,
    {
        if text::same(slow[i], name) {
            assert(all[i as int] == name@);
            return true;
        }
    }
    false
}

/// A tool is linked against nothing that counts as yielding.
pub proof fn law_tools_do_not_yield(i: Interface, name: Seq<char>)
    requires
        interfaces(Caps::Tool).contains(i),
    ensures
        !slow_calls(i).contains(name),
{
}

/// Whether an interface reaches the machine the harness runs on, or changes the
/// harness itself.
pub open spec fn reaches_the_host(i: Interface) -> bool {
    i is Devkit || i is Hostfs || i is Terminal || i is Control || i is Configuration
}

/// Only the agent reaches the host.
pub proof fn law_only_the_agent_reaches_the_host(caps: Caps, i: Interface)
    requires
        interfaces(caps).contains(i),
        reaches_the_host(i),
    ensures
        caps is Agent,
{
}

/// Only the agent talks to a model.
pub proof fn law_only_the_agent_talks_to_a_model(caps: Caps)
    requires
        interfaces(caps).contains(Interface::Llm),
    ensures
        caps is Agent,
{
}

/// A tool sees no session's log.
pub proof fn law_tools_see_no_sessions(caps: Caps)
    requires
        interfaces(caps).contains(Interface::Session),
    ensures
        !(caps is Tool),
{
}

/// How much memory a guest may use.
pub fn memory_cap(cfg: &Config, caps: Caps) -> (r: usize)
    ensures
        r == match caps {
            Caps::Agent => cfg.agent_memory_bytes,
            Caps::Gateway => cfg.gateway_memory_bytes,
            Caps::Tool => cfg.tool_memory_bytes,
        },
{
    match caps {
        Caps::Agent => cfg.agent_memory_bytes,
        Caps::Gateway => cfg.gateway_memory_bytes,
        Caps::Tool => cfg.tool_memory_bytes,
    }
}

/// The name a directory goes by inside a guest.
pub open spec fn guest_name(dir: Seq<char>) -> Seq<char> {
    match last_name(dir) {
        Some(n) => n,
        None => "workspace"@,
    }
}

/// The name a directory goes by inside a guest.
pub fn preopen_name(dir: &str) -> (r: String)
    ensures
        r@ == guest_name(dir@),
{
    match paths::file_name(dir) {
        Some(n) => n,
        None => "workspace".to_owned(),
    }
}

// --- budgets ----------------------------------------------------------------

/// Wall-clock and CPU limits for a single guest call.
#[derive(Debug)]
pub struct Budget {
    /// What this call is, for the trap message.
    pub label: String,
    /// Started with the call.
    pub started: Clock,
    /// When the guest last came back from a host call that may block, on the
    /// call's clock. Time spent waiting on the network is not charged as guest
    /// CPU.
    pub last_yield: Span,
    /// Wall-clock ceiling for the whole call.
    pub total: Span,
    /// Longest the guest may run without returning to a blocking host import.
    /// Catches infinite loops long before the wall-clock budget expires.
    pub slice: Span,
    /// Whether the call was cancelled.
    pub cancelled: bool,
}

/// What a budget allows.
pub struct BudgetView {
    /// What the call is.
    pub label: Seq<char>,
    /// When the guest last yielded.
    pub last_yield: Span,
    /// Wall-clock ceiling for the whole call.
    pub total: Span,
    /// Longest the guest may run without yielding.
    pub slice: Span,
    /// Whether the call was cancelled.
    pub cancelled: bool,
}

impl BudgetView {
    /// Whether its spans are spans.
    pub open spec fn ok(self) -> bool {
        self.last_yield.ok() && self.total.ok() && self.slice.ok()
    }
}

impl View for Budget {
    type V = BudgetView;

    open spec fn view(&self) -> BudgetView {
        BudgetView {
            label: self.label@,
            last_yield: self.last_yield,
            total: self.total,
            slice: self.slice,
            cancelled: self.cancelled,
        }
    }
}

/// A duration as it is written in a message.
pub open spec fn span_text(span: Span) -> Seq<char> {
    duration_text(span.secs, span.nanos)
}

/// Why a call is stopped, if it is: it was cancelled, it has run for longer
/// than it may, or it has not yielded for longer than it may.
pub open spec fn violated(b: BudgetView, elapsed: Span, spinning: Span) -> Option<Seq<char>> {
    if b.cancelled {
        Some(b.label + ": cancelled by orchestrator"@)
    } else if elapsed.total() > b.total.total() {
        Some(
            b.label + ": exceeded wall-clock budget of "@ + span_text(b.total) + " (ran "@
                + span_text(elapsed) + ")"@,
        )
    } else if spinning.total() > b.slice.total() {
        Some(
            b.label + ": ran "@ + span_text(spinning)
                + " without yielding to a host call (limit "@ + span_text(b.slice)
                + ") — likely an infinite loop"@,
        )
    } else {
        None
    }
}

impl Budget {
    /// A budget that starts now.
    pub fn new(label: &str, total: Span, slice: Span) -> (r: Budget)
        ensures
            r@ == (BudgetView {
                label: label@,
                last_yield: Span { secs: 0, nanos: 0 },
                total,
                slice,
                cancelled: false,
            }),
    {
        Budget {
            label: label.to_owned(),
            started: Clock::start(),
            last_yield: Span { secs: 0, nanos: 0 },
            total,
            slice,
            cancelled: false,
        }
    }

    /// A budget for a call that may take all its time in one go.
    pub fn probe(label: &str, total: Span) -> (r: Budget)
        ensures
            r@ == (BudgetView {
                label: label@,
                last_yield: Span { secs: 0, nanos: 0 },
                total,
                slice: total,
                cancelled: false,
            }),
    {
        Self::new(label, total, total)
    }

    /// Records that the guest just came back from a blocking host call.
    pub fn yielded(&mut self)
        ensures
            final(self)@ == (BudgetView { last_yield: final(self)@.last_yield, ..old(self)@ }),
            final(self)@.last_yield.ok(),
            final(self).started == old(self).started,
    {
        let now = self.started.read();
        self.yielded_at(now);
    }

    /// Records that the guest came back from a blocking host call so long after
    /// the call began.
    pub fn yielded_at(&mut self, now: Span)
        ensures
            final(self)@ == (BudgetView { last_yield: now, ..old(self)@ }),
            final(self).started == old(self).started,
    {
        self.last_yield = now;
    }

    /// Why the call is stopped, if it is, so long after it began.
    pub fn violation_at(&self, elapsed: Span, spinning: Span) -> (r: Option<String>)
        requires
            self@.ok(),
            elapsed.ok(),
            spinning.ok(),
        ensures
            text_of(r) == violated(self@, elapsed, spinning),
    {
        if self.cancelled {
            return Some(self.label.clone().concat(": cancelled by orchestrator"));
        }
        if self.total.shorter_than(&elapsed) {
            return Some(
                self.label.clone().concat(": exceeded wall-clock budget of ").concat(
                    show(&self.total).as_str(),
                ).concat(" (ran ").concat(show(&elapsed).as_str()).concat(")"),
            );
        }
        if self.slice.shorter_than(&spinning) {
            return Some(
                self.label.clone().concat(": ran ").concat(show(&spinning).as_str()).concat(
                    " without yielding to a host call (limit ",
                ).concat(show(&self.slice).as_str()).concat(") — likely an infinite loop"),
            );
        }
        None
    }

    /// Why the call is stopped now, if it is.
    pub fn violation(&self) -> (r: Option<String>)
        requires
            self@.ok(),
        ensures
            exists|elapsed: Span, later: Span|
                elapsed.ok() && later.ok() && text_of(r) == #[trigger] violated(
                    self@,
                    elapsed,
                    span_since(later, self@.last_yield),
                ),
            self.cancelled ==> text_of(r) == Some(self.label@ + ": cancelled by orchestrator"@),
    {
        let elapsed = self.started.read();
        let later = self.started.read();
        let spinning = later.since(&self.last_yield);
        self.violation_at(elapsed, spinning)
    }
}

/// Within its limits a call is left alone.
pub proof fn law_work_within_limits_is_left_alone(b: BudgetView, elapsed: Span, spinning: Span)
    requires
        !b.cancelled,
        elapsed.total() <= b.total.total(),
        spinning.total() <= b.slice.total(),
    ensures
        violated(b, elapsed, spinning) is None,
{
}

/// Yielding does not extend the time a call has in all.
pub proof fn law_yielding_does_not_extend_the_total(b: BudgetView, elapsed: Span, now: Span)
    requires
        elapsed.total() > b.total.total(),
    ensures
        violated(
            BudgetView { last_yield: now, ..b },
            elapsed,
            span_since(elapsed, now),
        ) is Some,
{
}

/// A guest that has just yielded is not spinning.
pub proof fn law_yielding_resets_the_spin_timer(b: BudgetView, now: Span)
    requires
        !b.cancelled,
        now.ok(),
        now.total() <= b.total.total(),
    ensures
        violated(BudgetView { last_yield: now, ..b }, now, span_since(now, now)) is None,
{
}

/// A cancelled call is stopped whatever its clock says.
pub proof fn law_cancellation_is_a_violation(b: BudgetView, elapsed: Span, spinning: Span)
    requires
        b.cancelled,
    ensures
        violated(b, elapsed, spinning) == Some(b.label + ": cancelled by orchestrator"@),
{
}

/// The agent has every interface; a gateway has the common ones and sessions, a tool the
/// common ones and the sandbox, and neither has more.
pub proof fn law_guests_have_what_they_are_given(i: Interface)
    ensures
        interfaces(Caps::Agent).contains(i),
        interfaces(Caps::Gateway).contains(i) <==> i is Wasi || i is Http || i is Sys
            || i is Session,
        interfaces(Caps::Tool).contains(i) <==> i is Wasi || i is Http || i is Sys || i is Sandbox,
{
    let a = interfaces(Caps::Agent);
    let g = interfaces(Caps::Gateway);
    let t = interfaces(Caps::Tool);
    assert(a[0] is Wasi && a[1] is Http && a[2] is Sys && a[3] is Session && a[4] is Llm);
    assert(a[5] is Sandbox && a[6] is Tooling && a[7] is Devkit && a[8] is Hostfs);
    assert(a[9] is Terminal && a[10] is Control && a[11] is Configuration);
    assert(g[0] is Wasi && g[1] is Http && g[2] is Sys && g[3] is Session);
    assert(t[0] is Wasi && t[1] is Http && t[2] is Sys && t[3] is Sandbox);
    let k: int = match i {
        Interface::Wasi => 0,
        Interface::Http => 1,
        Interface::Sys => 2,
        Interface::Session => 3,
        Interface::Llm => 4,
        Interface::Sandbox => 5,
        Interface::Tooling => 6,
        Interface::Devkit => 7,
        Interface::Hostfs => 8,
        Interface::Terminal => 9,
        Interface::Control => 10,
        Interface::Configuration => 11,
    };
    assert(a[k] == i);
    if k < 3 {
        assert(g[k] == i && t[k] == i);
    }
    if i is Session {
        assert(g[3] == i);
    }
    if i is Sandbox {
        assert(t[3] == i);
    }
}

/// Work that passes one of its limits is stopped, and it is told which call it was: the
/// total whatever it did in between, the slice unless it yielded.
pub proof fn law_work_beyond_its_limits_is_stopped(b: BudgetView, elapsed: Span, spinning: Span)
    ensures
        violated(b, elapsed, spinning) is Some <==> b.cancelled || elapsed.total()
            > b.total.total() || spinning.total() > b.slice.total(),
        violated(b, elapsed, spinning) matches Some(e) ==> text::begins(e, b.label),
        !b.cancelled && elapsed.total() > b.total.total() ==> text::occurs(
            violated(b, elapsed, spinning)->0,
            span_text(b.total),
        ),
        !b.cancelled && elapsed.total() <= b.total.total() && spinning.total() > b.slice.total()
            ==> text::occurs(violated(b, elapsed, spinning)->0, span_text(b.slice)),
{
    let l = b.label;
    text::lemma_more_follows(l, l, ": cancelled by orchestrator"@);
    let a1 = l + ": exceeded wall-clock budget of "@;
    let a2 = a1 + span_text(b.total);
    let a3 = a2 + " (ran "@;
    let a4 = a3 + span_text(elapsed);
    text::lemma_more_follows(l, l, ": exceeded wall-clock budget of "@);
    text::lemma_more_follows(a1, l, span_text(b.total));
    text::lemma_more_follows(a2, l, " (ran "@);
    text::lemma_more_follows(a3, l, span_text(elapsed));
    text::lemma_more_follows(a4, l, ")"@);
    text::lemma_at_the_end(a1, span_text(b.total));
    text::lemma_more_follows(a2, span_text(b.total), " (ran "@);
    text::lemma_more_follows(a3, span_text(b.total), span_text(elapsed));
    text::lemma_more_follows(a4, span_text(b.total), ")"@);
    let c1 = l + ": ran "@;
    let c2 = c1 + span_text(spinning);
    let c3 = c2 + " without yielding to a host call (limit "@;
    let c4 = c3 + span_text(b.slice);
    let end = ") — likely an infinite loop"@;
    text::lemma_more_follows(l, l, ": ran "@);
    text::lemma_more_follows(c1, l, span_text(spinning));
    text::lemma_more_follows(c2, l, " without yielding to a host call (limit "@);
    text::lemma_more_follows(c3, l, span_text(b.slice));
    text::lemma_more_follows(c4, l, end);
    text::lemma_at_the_end(c3, span_text(b.slice));
    text::lemma_more_follows(c4, span_text(b.slice), end);
}

/// A directory is handed to a guest under its own name.
pub proof fn law_a_directory_keeps_its_name(base: Seq<char>, name: Seq<char>)
    requires
        base.len() > 0,
        paths::is_simple(name),
    ensures
        guest_name(paths::below(base, name)) == name,
{
    paths::lemma_name_below(base, name);
}

} // verus!
