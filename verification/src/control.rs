//! Control over the process itself.
//!
//! Restarting is how a change to the native binary, or to configuration read
//! only at startup, takes effect. Guest code cannot be trusted to do this
//! sensibly on its own, so it is rate limited by uptime and can be turned off.
use vstd::prelude::*;

use crate::config::ControlSettings;
use crate::text;
use crate::text::trimmed;
use crate::time::{Clock, Span};

verus! {

/// When the process started, for the minimum-uptime guard.
#[derive(Debug)]
pub struct Start {
    clock: Option<Clock>,
}

impl Start {
    /// A process that has not been marked as started.
    pub fn new() -> (r: Start)
        ensures
            !r.marked(),
    {
        Start { clock: None }
    }

    /// Whether the start has been marked.
    pub closed spec fn marked(self) -> bool {
        self.clock is Some
    }
}

/// Marks the start of the process. Only the first mark counts.
pub fn mark_start(start: &mut Start)
    ensures
        final(start).marked(),
        old(start).marked() ==> *final(start) == *old(start),
{
    if start.clock.is_none() {
        start.clock = Some(Clock::start());
    }
}

/// How long a process has been up, given what the clock of its start reads:
/// nothing where the start was never marked, which is the conservative
/// direction.
pub open spec fn up_for(reading: Option<Span>) -> Span {
    match reading {
        Some(elapsed) => elapsed,
        None => Span { secs: 0, nanos: 0 },
    }
}

/// How long a process has been up, given what the clock of its start reads.
pub fn uptime_at(reading: Option<Span>) -> (r: Span)
    ensures
        r == up_for(reading),
{
    match reading {
        Some(elapsed) => elapsed,
        None => Span { secs: 0, nanos: 0 },
    }
}

/// How long the process has been up: what the clock of its start reads, and
/// nothing until that start is marked. How long that is, the clock alone says.
pub fn uptime(start: &Start) -> (r: Span)
    ensures
        r.ok(),
        !start.marked() ==> r == (Span { secs: 0, nanos: 0 }),
        exists|reading: Option<Span>|
            reading is Some == start.marked() && (reading matches Some(elapsed) ==> elapsed.ok())
                && r == #[trigger] up_for(reading),
{
    let reading = match &start.clock {
        Some(clock) => Some(clock.read()),
        None => None,
    };
    uptime_at(reading)
}

/// A restart on its way.
#[derive(Debug, PartialEq, Eq)]
pub struct Restart {
    /// How long to wait first, so that the turn can finish and the user can
    /// read why the process is about to go away.
    pub delay: Span,
    /// The session whose turn is not to be carried on, or is, where a session
    /// asked.
    pub no_resume: Option<(String, bool)>,
    /// What the caller is told.
    pub message: String,
}

/// The durations a message mentions, as they are shown: in seconds, without
/// decimals but for the delay, which has one.
#[derive(Debug, PartialEq, Eq)]
pub struct Shown {
    /// How long the process has been up.
    pub up: String,
    /// How long it has to have been.
    pub min: String,
    /// How long until the restart.
    pub delay: String,
}

/// Why a restart is refused, if it is.
pub open spec fn restart_fault(cfg: ControlSettings, up: Span, shown: Shown) -> Option<Seq<char>> {
    if !cfg.allow_restart {
        Some("restarting is off; set control.allow_restart in genesis.toml to turn it on"@)
    } else if up.total() < cfg.min_uptime.total() {
        Some(
            "this process has only been up "@ + shown.up@ + "s; restarts are refused before "@
                + shown.min@ + "s so a failing restart cannot become a loop"@,
        )
    } else {
        None
    }
}

/// What the caller of a restart is told.
pub open spec fn restart_text(reason: Seq<char>, resume: bool, shown: Shown) -> Seq<char> {
    "restarting in "@ + shown.delay@ + "s: "@ + trimmed(reason) + ". "@ + if resume {
        "This turn will carry on once Genesis is back, so there is no need to repeat yourself."@
    } else {
        "This turn ends here."@
    }
}

/// Decides on a restart.
pub fn request_restart(
    cfg: &ControlSettings,
    up: Span,
    shown: &Shown,
    reason: &str,
    resume: bool,
    session: Option<&str>,
) -> (r: Result<Restart, String>)
    requires
        up.ok(),
        cfg.min_uptime.ok(),
    ensures
        match r {
            Ok(plan) => restart_fault(*cfg, up, *shown) is None && plan.delay == cfg.restart_delay
                && plan.message@ == restart_text(reason@, resume, *shown) && match session {
                Some(s) => plan.no_resume matches Some((id, off)) && id@ == s@ && off == !resume,
                None => plan.no_resume is None,
            },
            Err(e) => restart_fault(*cfg, up, *shown) == Some(e@),
        },
{
    if !cfg.allow_restart {
        return Err(
            "restarting is off; set control.allow_restart in genesis.toml to turn it on".to_owned(),
        );
    }
    if up.shorter_than(&cfg.min_uptime) {
        return Err(
            "this process has only been up ".to_owned().concat(shown.up.as_str()).concat(
                "s; restarts are refused before ",
            ).concat(shown.min.as_str()).concat("s so a failing restart cannot become a loop"),
        );
    }
    let no_resume = match session {
        Some(s) => Some((s.to_owned(), !resume)),
        None => None,
    };
    let message = "restarting in ".to_owned().concat(shown.delay.as_str()).concat("s: ").concat(
        text::trim(reason).as_str(),
    ).concat(". ").concat(
        if resume {
            "This turn will carry on once Genesis is back, so there is no need to repeat yourself."
        } else {
            "This turn ends here."
        },
    );
    Ok(Restart { delay: cfg.restart_delay, no_resume, message })
}

/// As long as the clock of the start does not go back, neither does the uptime:
/// it is nothing before the mark, and grows with the clock from then on.
pub proof fn law_uptime_follows_the_clock(earlier: Option<Span>, later: Option<Span>)
    requires
        earlier is Some ==> later is Some && earlier->0.total() <= later->0.total(),
    ensures
        up_for(earlier).total() <= up_for(later).total(),
        earlier is None ==> up_for(earlier).total() == 0,
{
}

/// A process that has not been up for long enough is not restarted, so a
/// failing restart cannot become a loop.
pub proof fn law_a_young_process_is_not_restarted(cfg: ControlSettings, up: Span, shown: Shown)
    requires
        up.total() < cfg.min_uptime.total(),
    ensures
        restart_fault(cfg, up, shown) is Some,
{
}

/// A process whose start was never marked counts as brand new: where any uptime
/// is asked for, it is not restarted.
pub proof fn law_an_unmarked_process_is_not_restarted(cfg: ControlSettings, shown: Shown)
    requires
        cfg.min_uptime.total() > 0,
    ensures
        restart_fault(cfg, Span { secs: 0, nanos: 0 }, shown) is Some,
{
}

/// A restart is refused exactly where it is switched off or the process is too young;
/// what is told of one gives the delay and the reason, and whether the turn goes on.
pub proof fn law_a_restart_is_refused_only_for_a_reason(
    cfg: ControlSettings,
    up: Span,
    shown: Shown,
    reason: Seq<char>,
    resume: bool,
)
    ensures
        restart_fault(cfg, up, shown) is None <==> cfg.allow_restart && up.total()
            >= cfg.min_uptime.total(),
        cfg.allow_restart && up.total() < cfg.min_uptime.total() ==> (restart_fault(
            cfg,
            up,
            shown,
        ) matches Some(e) && text::occurs(e, shown.up@) && text::occurs(e, shown.min@)),
        text::occurs(restart_text(reason, resume, shown), shown.delay@),
        text::occurs(restart_text(reason, resume, shown), trimmed(reason)),
        restart_text(reason, true, shown) != restart_text(reason, false, shown),
        up_for(Some(up)) == up,
        up_for(None).total() == 0,
{
    let a = "this process has only been up "@;
    let b = "s; restarts are refused before "@;
    let c = "s so a failing restart cannot become a loop"@;
    text::lemma_occurs_between(a, shown.up@, b + shown.min@ + c);
    assert(a + shown.up@ + b + shown.min@ + c =~= a + shown.up@ + (b + shown.min@ + c));
    text::lemma_occurs_between(a + shown.up@ + b, shown.min@, c);
    let on = "This turn will carry on once Genesis is back, so there is no need to repeat yourself."@;
    let off = "This turn ends here."@;
    reveal_strlit("This turn will carry on once Genesis is back, so there is no need to repeat yourself.");
    reveal_strlit("This turn ends here.");
    assert(off.len() == 20);
    assert(on.len() != 20);
    let tail = if resume {
        on
    } else {
        off
    };
    let t = restart_text(reason, resume, shown);
    let why = trimmed(reason);
    text::lemma_occurs_between("restarting in "@, shown.delay@, "s: "@ + why + ". "@ + tail);
    assert(t =~= "restarting in "@ + shown.delay@ + ("s: "@ + why + ". "@ + tail));
    text::lemma_occurs_between("restarting in "@ + shown.delay@ + "s: "@, why, ". "@ + tail);
    assert(t =~= "restarting in "@ + shown.delay@ + "s: "@ + why + (". "@ + tail));
    let lead = "restarting in "@ + shown.delay@ + "s: "@ + why + ". "@;
    assert(restart_text(reason, true, shown).len() == lead.len() + on.len());
    assert(restart_text(reason, false, shown).len() == lead.len() + off.len());
}

} // verus!
