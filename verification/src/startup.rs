//! Bringing the slots up, and carrying on with the turns that were cut short.
use vstd::prelude::*;

use crate::config::{Config, Paths};
use crate::pipeline::Outcome;
use crate::revisions::{slot_views, Origin};
use crate::slot::{Slot, SlotView};
use crate::text;
use crate::text::texts;
use crate::watcher::{append_named, named, OnDisk};

verus! {

// --- which slots ------------------------------------------------------------

/// The agent, plus every gateway and tool with a crate on disk. Gateways come
/// up first, so that the UI is reachable as early as possible, then the agent,
/// then the tools.
pub open spec fn startup_slots(p: Paths, disk: OnDisk) -> Seq<SlotView> {
    named(false, p.gateway_prefix@, texts(disk.gateways@)).push(SlotView::Agent) + named(
        true,
        p.tool_prefix@,
        texts(disk.tools@),
    )
}

/// The slots to bring up, in order.
pub fn discover_slots(cfg: &Config, disk: &OnDisk) -> (r: Vec<Slot>)
    ensures
        slot_views(r@) == startup_slots(cfg.paths, *disk),
{
    let mut slots: Vec<Slot> = Vec::new();
    assert(slot_views(slots@) =~= Seq::empty());
    append_named(&mut slots, false, cfg.paths.gateway_prefix.as_str(), &disk.gateways);
    let ghost gateways = slot_views(slots@);
    assert(gateways =~= named(false, cfg.paths.gateway_prefix@, texts(disk.gateways@)));
    slots.push(Slot::Agent);
    assert(slot_views(slots@) =~= gateways.push(SlotView::Agent));
    append_named(&mut slots, true, cfg.paths.tool_prefix.as_str(), &disk.tools);
    slots
}

// --- one slot ---------------------------------------------------------------

/// What bringing up a slot is waiting for.
#[derive(Debug, Clone, Copy, PartialEq, Eq, Structural)]
pub enum Waiting {
    /// What the book and the disk say of the slot.
    Look,
    /// The stored artifact of a revision to load.
    Load(u64),
    /// A build.
    Build,
    /// A rollback.
    Rollback,
    /// Nothing: it is up, or it failed.
    Nothing,
}

/// Bringing up one slot.
#[derive(Debug, PartialEq, Eq)]
pub struct BringUp {
    /// What it is waiting for.
    waiting: Waiting,
    /// Why the build failed, where it did.
    fault: String,
}

/// The state of bringing up one slot.
pub struct BringUpView {
    /// What it is waiting for.
    pub waiting: Waiting,
    /// Why the build failed, where it did.
    pub fault: Seq<char>,
}

impl View for BringUp {
    type V = BringUpView;

    closed spec fn view(&self) -> BringUpView {
        BringUpView { waiting: self.waiting, fault: self.fault@ }
    }
}

/// What happened to a slot on its way up.
pub enum Happened {
    /// The active revision, if there is one, and whether its artifact is on
    /// disk.
    Looked(Option<u64>, bool),
    /// Whether the stored artifact loads.
    Loaded(bool),
    /// What a build came to.
    Built(Result<Outcome, String>),
    /// A rollback was tried, whatever came of it.
    RolledBack,
}

/// What is done next.
#[derive(Debug, PartialEq, Eq)]
pub enum Next {
    /// Loads the stored artifact of a revision.
    Load(u64),
    /// Puts that revision in service, and rebuilds in the background: if the
    /// source moved on while the process was down, the change lands without a
    /// restart.
    Serve(u64, Origin, String),
    /// Builds the slot and waits for it.
    Build(Origin, String),
    /// Falls back to any earlier revision that still works.
    Rollback,
    /// The slot is up.
    Up,
    /// The slot did not come up, and why. The rest of the system still runs.
    Fail(String),
}

/// What is done next, as text.
pub enum NextView {
    /// Loads the stored artifact of a revision.
    Load(u64),
    /// Puts that revision in service and rebuilds in the background.
    Serve(u64, Origin, Seq<char>),
    /// Builds the slot and waits for it.
    Build(Origin, Seq<char>),
    /// Falls back to any earlier revision that still works.
    Rollback,
    /// The slot is up.
    Up,
    /// The slot did not come up, and why.
    Fail(Seq<char>),
}

impl View for Next {
    type V = NextView;

    open spec fn view(&self) -> NextView {
        match self {
            Next::Load(r) => NextView::Load(*r),
            Next::Serve(r, o, n) => NextView::Serve(*r, *o, n@),
            Next::Build(o, n) => NextView::Build(*o, n@),
            Next::Rollback => NextView::Rollback,
            Next::Up => NextView::Up,
            Next::Fail(e) => NextView::Fail(e@),
        }
    }
}

/// Whether an event is what a slot is waiting for.
pub open spec fn awaits(state: BringUpView, event: Happened) -> bool {
    match event {
        Happened::Looked(_, _) => state.waiting is Look,
        Happened::Loaded(_) => state.waiting is Load,
        Happened::Built(_) => state.waiting is Build,
        Happened::RolledBack => state.waiting is Rollback,
    }
}

/// The first build of a slot.
pub open spec fn first_build() -> NextView {
    NextView::Build(Origin::Bootstrap, "startup"@)
}

/// What a slot waits for after an event, and what is done next. The last
/// artifact that worked is reused, so a restart is fast and does not depend on
/// the toolchain being present.
pub open spec fn brought(state: BringUpView, event: Happened) -> (BringUpView, NextView) {
    match event {
        Happened::Looked(active, on_disk) => match active {
            Some(revision) => if on_disk {
                (
                    BringUpView { waiting: Waiting::Load(revision), ..state },
                    NextView::Load(revision),
                )
            } else {
                (BringUpView { waiting: Waiting::Build, ..state }, first_build())
            },
            None => (BringUpView { waiting: Waiting::Build, ..state }, first_build()),
        },
        Happened::Loaded(ok) => if ok {
            (
                BringUpView { waiting: Waiting::Nothing, ..state },
                NextView::Serve(state.waiting->Load_0, Origin::HumanEdit, "startup rebuild"@),
            )
        } else {
            (BringUpView { waiting: Waiting::Build, ..state }, first_build())
        },
        Happened::Built(Ok(outcome)) => if outcome@.success {
            (BringUpView { waiting: Waiting::Nothing, ..state }, NextView::Up)
        } else {
            (
                BringUpView {
                    waiting: Waiting::Rollback,
                    fault: outcome@.detail + "\n"@ + outcome@.stderr,
                },
                NextView::Rollback,
            )
        },
        Happened::Built(Err(e)) => (
            BringUpView { waiting: Waiting::Nothing, ..state },
            NextView::Fail(e@),
        ),
        Happened::RolledBack => (
            BringUpView { waiting: Waiting::Nothing, ..state },
            NextView::Fail(state.fault),
        ),
    }
}

impl BringUp {
    /// A slot that is to be brought up.
    pub fn new() -> (r: BringUp)
        ensures
            r@ == (BringUpView { waiting: Waiting::Look, fault: Seq::empty() }),
    {
        BringUp { waiting: Waiting::Look, fault: String::new() }
    }

    fn build(&mut self) -> (r: Next)
        ensures
            final(self)@ == (BringUpView { waiting: Waiting::Build, ..old(self)@ }),
            r@ == first_build(),
    {
        self.waiting = Waiting::Build;
        Next::Build(Origin::Bootstrap, "startup".to_owned())
    }

    /// Decides what is done next.
    pub fn step(&mut self, event: Happened) -> (r: Next)
        requires
            awaits(old(self)@, event),
        ensures
            (final(self)@, r@) == brought(old(self)@, event),
    {
        match event {
            Happened::Looked(active, on_disk) => {
                if let Some(revision) = active {
                    if on_disk {
                        self.waiting = Waiting::Load(revision);
                        return Next::Load(revision);
                    }
                }
                self.build()
            },
            Happened::Loaded(ok) => {
                if ok {
                    if let Waiting::Load(revision) = self.waiting {
                        self.waiting = Waiting::Nothing;
                        return Next::Serve(
                            revision,
                            Origin::HumanEdit,
                            "startup rebuild".to_owned(),
                        );
                    }
                }
                self.build()
            },
            Happened::Built(Ok(outcome)) => {
                if outcome.success {
                    self.waiting = Waiting::Nothing;
                    return Next::Up;
                }
                self.fault = outcome.detail.concat("\n").concat(outcome.stderr.as_str());
                self.waiting = Waiting::Rollback;
                Next::Rollback
            },
            Happened::Built(Err(e)) => {
                self.waiting = Waiting::Nothing;
                Next::Fail(e)
            },
            Happened::RolledBack => {
                self.waiting = Waiting::Nothing;
                Next::Fail(self.fault.clone())
            },
        }
    }
}

/// How far a slot is on its way up.
pub open spec fn progress(w: Waiting) -> nat {
    match w {
        Waiting::Look => 0,
        Waiting::Load(_) => 1,
        Waiting::Build => 2,
        Waiting::Rollback => 3,
        Waiting::Nothing => 4,
    }
}

/// Every event brings a slot further, so bringing it up comes to an end.
pub proof fn law_bringing_up_ends(state: BringUpView, event: Happened)
    requires
        awaits(state, event),
    ensures
        progress(brought(state, event).0.waiting) > progress(state.waiting),
{
}

/// A stored artifact that loads is served without waiting for a build.
pub proof fn law_a_stored_artifact_needs_no_build(state: BringUpView, revision: u64)
    requires
        state.waiting == Waiting::Load(revision),
    ensures
        brought(state, Happened::Loaded(true)).1 matches NextView::Serve(r, _, _) && r == revision,
{
}

/// A slot whose source does not build is reported as failed even where an
/// earlier revision was put back in service.
pub proof fn law_a_failed_build_is_reported(state: BringUpView, outcome: Outcome)
    requires
        state.waiting is Build,
        !outcome@.success,
    ensures
        ({
            let (next, action) = brought(state, Happened::Built(Ok(outcome)));
            action is Rollback && brought(next, Happened::RolledBack).1 == NextView::Fail(
                outcome@.detail + "\n"@ + outcome@.stderr,
            )
        }),
{
}

// --- the rebuild behind a restored slot -------------------------------------

/// What a background rebuild came to, for the log.
#[derive(Debug, PartialEq, Eq)]
pub enum Rebuilt {
    /// It picked up newer source.
    PickedUp(u64),
    /// There was nothing to do, and why.
    Unchanged(String),
    /// The source does not build; the stored revision is still running.
    Rejected(String, String),
}

/// What a background rebuild came to, for the log.
pub fn note_rebuild(outcome: &Outcome) -> (r: Rebuilt)
    ensures
        match r {
            Rebuilt::PickedUp(n) => outcome@.success && outcome@.detail.len() == 0 && n == (
            match outcome@.revision {
                Some(rev) => rev,
                None => 0,
            }),
            Rebuilt::Unchanged(d) => outcome@.success && outcome@.detail.len() > 0 && d@
                == outcome@.detail,
            Rebuilt::Rejected(d, e) => !outcome@.success && d@ == outcome@.detail && e@
                == outcome@.stderr,
        },
{
    if !outcome.success {
        return Rebuilt::Rejected(outcome.detail.clone(), outcome.stderr.clone());
    }
    if text::is_empty(outcome.detail.as_str()) {
        Rebuilt::PickedUp(
            match outcome.revision {
                Some(n) => n,
                None => 0,
            },
        )
    } else {
        Rebuilt::Unchanged(outcome.detail.clone())
    }
}

// --- interrupted turns ------------------------------------------------------

/// What a session whose turn was cut short is told.
pub const INTERRUPTED: &'static str =
    "This turn was interrupted when Genesis restarted. Carry on from where you left off; anything you were part-way through may need doing again.";

/// A turn that was cut short.
#[derive(Debug, PartialEq, Eq)]
pub struct Interrupted {
    /// The session.
    pub session_id: String,
    /// Whether it is to be carried on.
    pub resume: bool,
}

/// The sessions whose turns are carried on.
pub open spec fn resumed(items: Seq<Interrupted>) -> Seq<Seq<char>>
    decreases items.len(),
{
    if items.len() == 0 {
        Seq::empty()
    } else if items.last().resume {
        resumed(items.drop_last()).push(items.last().session_id@)
    } else {
        resumed(items.drop_last())
    }
}

/// The sessions whose turns are carried on.
pub fn resume_interrupted_turns(items: &Vec<Interrupted>) -> (r: Vec<String>)
    ensures
        texts(r@) == resumed(items@),
{
    let mut out: Vec<String> = Vec::new();
    assert(texts(out@) =~= resumed(items@.take(0)));
    for i in 0..items.len()
        invariant
            texts(out@) == resumed(items@.take(i as int)),
    {
        let ghost had = out@;
        proof {
            assert(items@.take(i + 1).drop_last() =~= items@.take(i as int));
            assert(items@.take(i + 1).last() == items@[i as int]);
        }
        if items[i].resume {
            let id = items[i].session_id.clone();
            out.push(id);
            proof {
                text::lemma_texts_push(had, id);
            }
        }
    }
    assert(items@.take(items@.len() as int) =~= items@);
    out
}

/// A slot is brought up from what is on disk where that is the active revision's, and
/// from its source otherwise; what does not load is built, and a build that succeeds is
/// enough.
pub proof fn law_a_slot_comes_up_by_the_shortest_way(
    state: BringUpView,
    active: Option<u64>,
    on_disk: bool,
    outcome: Outcome,
    e: String,
)
    ensures
        ({
            let (next, action) = brought(state, Happened::Looked(active, on_disk));
            &&& active is Some && on_disk ==> action == NextView::Load(active->0) && next.waiting
                == Waiting::Load(active->0)
            &&& !(active is Some && on_disk) ==> action is Build && next.waiting is Build
        }),
        brought(state, Happened::Loaded(false)).1 is Build && brought(
            state,
            Happened::Loaded(false),
        ).0.waiting is Build,
        outcome@.success ==> brought(state, Happened::Built(Ok(outcome))).1 is Up,
        !outcome@.success ==> brought(state, Happened::Built(Ok(outcome))).1 is Rollback,
        brought(state, Happened::Built(Err(e))).1 == NextView::Fail(e@),
{
}

/// At startup every gateway comes up first, then the agent, then every tool.
pub proof fn law_the_agent_comes_up_between_gateways_and_tools(p: Paths, disk: OnDisk)
    ensures
        ({
            let all = startup_slots(p, disk);
            let gates = named(false, p.gateway_prefix@, texts(disk.gateways@));
            let tools = named(true, p.tool_prefix@, texts(disk.tools@));
            &&& all.len() == gates.len() + 1 + tools.len()
            &&& all.take(gates.len() as int) == gates
            &&& all[gates.len() as int] == SlotView::Agent
            &&& all.skip(gates.len() as int + 1) == tools
        }),
{
    let all = startup_slots(p, disk);
    let gates = named(false, p.gateway_prefix@, texts(disk.gateways@));
    let tools = named(true, p.tool_prefix@, texts(disk.tools@));
    assert(all.take(gates.len() as int) =~= gates);
    assert(all.skip(gates.len() as int + 1) =~= tools);
}

/// The sessions that are carried on are those that were interrupted and are to be, in
/// order, and no others.
pub proof fn law_interrupted_sessions_are_carried_on(
    before: Seq<Interrupted>,
    item: Interrupted,
    after: Seq<Interrupted>,
)
    ensures
        resumed(before + seq![item] + after) == resumed(before) + (if item.resume {
            seq![item.session_id@]
        } else {
            Seq::empty()
        }) + resumed(after),
        resumed(Seq::empty()).len() == 0,
{
    let one = seq![item];
    lemma_resumed_add(before + one, after);
    lemma_resumed_add(before, one);
    assert(one.drop_last() =~= Seq::<Interrupted>::empty());
    assert(one.last() == item);
    assert(resumed(Seq::<Interrupted>::empty()) == Seq::<Seq<char>>::empty());
    if item.resume {
        assert(resumed(one) =~= seq![item.session_id@]);
    } else {
        assert(resumed(one) =~= Seq::<Seq<char>>::empty());
    }
}

proof fn lemma_resumed_add(a: Seq<Interrupted>, b: Seq<Interrupted>)
    ensures
        resumed(a + b) == resumed(a) + resumed(b),
    decreases b.len(),
{
    if b.len() == 0 {
        assert(a + b =~= a);
        assert(resumed(a) + resumed(b) =~= resumed(a));
    } else {
        assert((a + b).drop_last() =~= a + b.drop_last());
        assert((a + b).last() == b.last());
        lemma_resumed_add(a, b.drop_last());
        if b.last().resume {
            let s = b.last().session_id@;
            assert((resumed(a) + resumed(b.drop_last())).push(s) =~= resumed(a) + resumed(
                b.drop_last(),
            ).push(s));
        }
    }
}

/// A slot's first build is the system's own, and a rebuild of what is already served is
/// put down to whoever changed the source.
pub proof fn law_builds_at_startup_are_put_down_rightly(
    state: BringUpView,
    revision: u64,
    active: Option<u64>,
)
    requires
        state.waiting == Waiting::Load(revision),
    ensures
        brought(state, Happened::Loaded(false)).1 matches NextView::Build(o, _) && o
            == Origin::Bootstrap,
        brought(state, Happened::Looked(active, false)).1 matches NextView::Build(o, _) && o
            == Origin::Bootstrap,
        brought(state, Happened::Loaded(true)).1 matches NextView::Serve(_, o, _) && o
            == Origin::HumanEdit,
{
}

} // verus!
