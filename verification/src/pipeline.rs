//! The one path a change takes to reach the running system.
//!
//! build -> record a revision -> validate -> activate -> swap
//!
//! Human edits (via the file watcher) and the agent's own self-modification
//! both go through here, so both get identical guarantees: a candidate that
//! fails any gate is recorded and set aside, and whatever was already running
//! keeps running.
//!
//! `BuildRun::step` takes what just happened and says what to do next; whoever
//! runs the build does it and reports back.
use vstd::prelude::*;

use crate::json;
use crate::json::{Json, JsonView};
use crate::revisions::{
    active_row, fallback_row, find_active, find_fallback, find_row, marked, numbered, origin_word,
    promoted, row_at, row_views, BookView, Origin, RevisionRow, Revisions, RowView, Shelf,
    SnapshotView, Status, SystemSnapshot,
};
use crate::slot;
use crate::slot::{slot_key, slot_named, Slot, SlotView};
use crate::text;
use crate::text::{decimal, joined, text_of, texts, trimmed, zero_padded};
use crate::types::{CompileReport, ToolManifest};

verus! {

/// The result of pushing a change through the pipeline, shaped so it can be
/// handed straight back to the model as a compile report.
#[derive(Debug, PartialEq, Eq)]
pub struct Outcome {
    /// Whether the change is live.
    pub success: bool,
    /// The slot's key.
    pub slot: String,
    /// The revision in service after a success.
    pub revision: Option<u64>,
    /// What the compiler said.
    pub stderr: String,
    /// How long it took.
    pub duration_ms: u64,
    /// Why the change is not live, or why nothing changed.
    pub detail: String,
    /// Whether the change lands when the current turn ends.
    pub pending_swap: bool,
}

/// What an outcome says.
pub struct OutcomeView {
    /// Whether the change is live.
    pub success: bool,
    /// The slot's key.
    pub slot: Seq<char>,
    /// The revision in service after a success.
    pub revision: Option<u64>,
    /// What the compiler said.
    pub stderr: Seq<char>,
    /// How long it took.
    pub duration_ms: u64,
    /// Why the change is not live, or why nothing changed.
    pub detail: Seq<char>,
    /// Whether the change lands when the current turn ends.
    pub pending_swap: bool,
}

impl View for Outcome {
    type V = OutcomeView;

    open spec fn view(&self) -> OutcomeView {
        OutcomeView {
            success: self.success,
            slot: self.slot@,
            revision: self.revision,
            stderr: self.stderr@,
            duration_ms: self.duration_ms,
            detail: self.detail@,
            pending_swap: self.pending_swap,
        }
    }
}

/// The outcome of a change that did not go live.
pub open spec fn failed(
    slot: SlotView,
    detail: Seq<char>,
    stderr: Seq<char>,
    elapsed_ms: u64,
) -> OutcomeView {
    OutcomeView {
        success: false,
        slot: slot_key(slot),
        revision: None,
        stderr,
        duration_ms: elapsed_ms,
        detail,
        pending_swap: false,
    }
}

impl Outcome {
    /// The outcome of a change that did not go live.
    pub fn failure(slot: &Slot, detail: &str, stderr: &str, elapsed_ms: u64) -> (r: Outcome)
        ensures
            r@ == failed(slot@, detail@, stderr@, elapsed_ms),
    {
        Outcome {
            success: false,
            slot: slot.key(),
            revision: None,
            stderr: stderr.to_owned(),
            duration_ms: elapsed_ms,
            detail: detail.to_owned(),
            pending_swap: false,
        }
    }

    /// The outcome as a report to the model.
    pub fn into_report(self) -> (r: CompileReport)
        ensures
            r.success == self.success,
            r.slot@ == self.slot@,
            r.revision == self.revision,
            r.stderr@ == self.stderr@,
            r.duration_ms == self.duration_ms,
            r.pending_swap == self.pending_swap,
            r.detail@ == self.detail@,
    {
        CompileReport {
            success: self.success,
            slot: self.slot,
            revision: self.revision,
            stderr: self.stderr,
            duration_ms: self.duration_ms,
            pending_swap: self.pending_swap,
            detail: self.detail,
        }
    }
}

// --- building ---------------------------------------------------------------

/// What a build is waiting for.
#[derive(Debug, Clone, Copy, PartialEq, Eq, Structural)]
pub enum Stage {
    /// Leave to start: one build of a slot at a time.
    Waiting,
    /// The compiler.
    Compiling,
    /// What is recorded and what is in service.
    Comparing,
    /// A revision for the component.
    Recording,
    /// The component to be loaded.
    Loading,
    /// The smoke test.
    Testing,
    /// Nothing: it is over.
    Over,
}

/// A build under way.
pub struct BuildRun {
    /// The slot.
    pub slot: Slot,
    /// Who made the change.
    pub origin: Origin,
    /// What the change was.
    pub note: String,
    /// What it is waiting for.
    pub stage: Stage,
    /// What the compiler said.
    pub stderr: String,
    /// The revision that was recorded.
    pub revision: u64,
}

/// The state of a build.
pub struct BuildRunView {
    /// The slot.
    pub slot: SlotView,
    /// Who made the change.
    pub origin: Origin,
    /// What the change was.
    pub note: Seq<char>,
    /// What it is waiting for.
    pub stage: Stage,
    /// What the compiler said.
    pub stderr: Seq<char>,
    /// The revision that was recorded.
    pub revision: u64,
}

impl View for BuildRun {
    type V = BuildRunView;

    open spec fn view(&self) -> BuildRunView {
        BuildRunView {
            slot: self.slot@,
            origin: self.origin,
            note: self.note@,
            stage: self.stage,
            stderr: self.stderr@,
            revision: self.revision,
        }
    }
}

/// What just happened to a build.
#[derive(Debug, PartialEq, Eq)]
pub enum BuildEvent {
    /// Leave to start was given, or a build of the slot is running already.
    Begun {
        /// Whether leave was given.
        granted: bool,
    },
    /// The compiler is done.
    Compiled {
        /// Whether it succeeded.
        success: bool,
        /// What it said.
        stderr: String,
        /// Whether it left a component.
        artifact: bool,
    },
    /// What is recorded and what is in service.
    Compared {
        /// The fingerprint of the new component, if it could be taken.
        fresh: Option<String>,
        /// The revision recorded as active, with its fingerprint.
        active: Option<(u64, String)>,
        /// The revision that is loaded.
        serving: Option<u64>,
    },
    /// A revision was recorded.
    Recorded {
        /// Its number.
        revision: u64,
    },
    /// The component was loaded, or why not.
    Loaded {
        /// Why it was not loaded.
        fault: Option<String>,
    },
    /// The smoke test passed, or why not.
    Tested {
        /// Why it did not pass.
        fault: Option<String>,
    },
}

/// What a build wants done next.
#[derive(Debug, PartialEq, Eq)]
pub enum BuildAction {
    /// Run the compiler.
    Compile,
    /// Look up what is recorded and what is in service.
    Compare,
    /// Freeze the component as an immutable revision, before anything live is
    /// touched.
    Record,
    /// Load the recorded component.
    Load,
    /// Run the smoke test on it.
    Test,
    /// Take the recorded revision out of service, and end.
    Reject(Outcome),
    /// Put the component into service, activate its revision for this cause,
    /// and end.
    GoLive(String, Outcome),
    /// End.
    Finish(Outcome),
    /// End with an error.
    Fail(String),
}

/// What a build wants done next, as text.
pub enum BuildActionView {
    /// Run the compiler.
    Compile,
    /// Look up what is recorded and what is in service.
    Compare,
    /// Freeze the component as a revision.
    Record,
    /// Load the recorded component.
    Load,
    /// Run the smoke test on it.
    Test,
    /// Take the recorded revision out of service, and end.
    Reject(OutcomeView),
    /// Put the component into service, and end.
    GoLive(Seq<char>, OutcomeView),
    /// End.
    Finish(OutcomeView),
    /// End with an error.
    Fail(Seq<char>),
}

impl View for BuildAction {
    type V = BuildActionView;

    open spec fn view(&self) -> BuildActionView {
        match self {
            BuildAction::Compile => BuildActionView::Compile,
            BuildAction::Compare => BuildActionView::Compare,
            BuildAction::Record => BuildActionView::Record,
            BuildAction::Load => BuildActionView::Load,
            BuildAction::Test => BuildActionView::Test,
            BuildAction::Reject(o) => BuildActionView::Reject(o@),
            BuildAction::GoLive(cause, o) => BuildActionView::GoLive(cause@, o@),
            BuildAction::Finish(o) => BuildActionView::Finish(o@),
            BuildAction::Fail(e) => BuildActionView::Fail(e@),
        }
    }
}

/// Whether an event is one that a build is waiting for.
pub open spec fn build_expects(run: BuildRunView, event: BuildEvent) -> bool {
    match event {
        BuildEvent::Begun { .. } => run.stage is Waiting,
        BuildEvent::Compiled { .. } => run.stage is Compiling,
        BuildEvent::Compared { .. } => run.stage is Comparing,
        BuildEvent::Recorded { .. } => run.stage is Recording,
        BuildEvent::Loaded { .. } => run.stage is Loading,
        BuildEvent::Tested { .. } => run.stage is Testing,
    }
}

/// Whether a build changed nothing: the component is the recorded active one
/// byte for byte, and that revision is also the one in service. The registry
/// can say a revision is active while nothing is loaded, a fresh boot whose
/// artifacts were rebuilt for instance, and stopping there would report success
/// while leaving the slot empty.
pub open spec fn unchanged(
    fresh: Option<Seq<char>>,
    active: Option<(u64, String)>,
    serving: Option<u64>,
) -> bool {
    match (fresh, active) {
        (Some(f), Some((revision, hash))) => f == hash@ && serving == Some(revision),
        _ => false,
    }
}

/// A build at a later stage.
pub open spec fn at_stage(run: BuildRunView, stage: Stage) -> BuildRunView {
    BuildRunView { stage, ..run }
}

/// What becomes of a build, and what it wants done, when something happens.
pub open spec fn build_stepped(run: BuildRunView, event: BuildEvent, elapsed_ms: u64) -> (
    BuildRunView,
    BuildActionView,
) {
    match event {
        BuildEvent::Begun { granted } => if granted {
            (at_stage(run, Stage::Compiling), BuildActionView::Compile)
        } else {
            // A build already running for this slot will pick up the same
            // source tree, so waiting only to repeat it is wasted work.
            (
                at_stage(run, Stage::Over),
                BuildActionView::Finish(
                    failed(
                        run.slot,
                        "a build for this slot is already running; its result will cover this change too"@,
                        Seq::empty(),
                        elapsed_ms,
                    ),
                ),
            )
        },
        BuildEvent::Compiled { success, stderr, artifact } => if !success {
            (
                at_stage(run, Stage::Over),
                BuildActionView::Finish(
                    failed(
                        run.slot,
                        "compilation failed; the running revision is unchanged"@,
                        stderr@,
                        elapsed_ms,
                    ),
                ),
            )
        } else if !artifact {
            (
                at_stage(run, Stage::Over),
                BuildActionView::Fail("build reported success without an artifact"@),
            )
        } else {
            (
                BuildRunView { stage: Stage::Comparing, stderr: stderr@, ..run },
                BuildActionView::Compare,
            )
        },
        BuildEvent::Compared { fresh, active, serving } => if unchanged(
            text_of(fresh),
            active,
            serving,
        ) {
            (
                at_stage(run, Stage::Over),
                BuildActionView::Finish(
                    OutcomeView {
                        success: true,
                        slot: slot_key(run.slot),
                        revision: Some((active->0).0),
                        stderr: run.stderr,
                        duration_ms: elapsed_ms,
                        detail: "no change: the build is identical to r"@ + zero_padded(
                            (active->0).0 as nat,
                            4,
                        ),
                        pending_swap: false,
                    },
                ),
            )
        } else {
            (at_stage(run, Stage::Recording), BuildActionView::Record)
        },
        BuildEvent::Recorded { revision } => (
            BuildRunView { stage: Stage::Loading, revision, ..run },
            BuildActionView::Load,
        ),
        BuildEvent::Loaded { fault } => match text_of(fault) {
            None => (at_stage(run, Stage::Testing), BuildActionView::Test),
            Some(e) => (
                at_stage(run, Stage::Over),
                BuildActionView::Reject(
                    failed(
                        run.slot,
                        "r"@ + decimal(run.revision as nat) + " is not a valid component: "@ + e,
                        run.stderr,
                        elapsed_ms,
                    ),
                ),
            ),
        },
        BuildEvent::Tested { fault } => match text_of(fault) {
            None => (
                at_stage(run, Stage::Over),
                BuildActionView::GoLive(
                    origin_word(run.origin) + ": "@ + run.note,
                    OutcomeView {
                        success: true,
                        slot: slot_key(run.slot),
                        revision: Some(run.revision),
                        stderr: run.stderr,
                        duration_ms: elapsed_ms,
                        detail: Seq::empty(),
                        pending_swap: run.slot is Agent,
                    },
                ),
            ),
            Some(e) => (
                at_stage(run, Stage::Over),
                BuildActionView::Reject(
                    failed(
                        run.slot,
                        "r"@ + decimal(run.revision as nat)
                            + " compiled but failed its smoke test: "@ + e,
                        run.stderr,
                        elapsed_ms,
                    ),
                ),
            ),
        },
    }
}

/// A build about to start.
pub open spec fn fresh_build(slot: SlotView, origin: Origin, note: Seq<char>) -> BuildRunView {
    BuildRunView {
        slot,
        origin,
        note,
        stage: Stage::Waiting,
        stderr: Seq::empty(),
        revision: 0,
    }
}

impl BuildRun {
    /// A build about to start.
    pub fn new(slot: &Slot, origin: Origin, note: &str) -> (r: BuildRun)
        ensures
            r@ == fresh_build(slot@, origin, note@),
    {
        BuildRun {
            slot: slot.clone(),
            origin,
            note: note.to_owned(),
            stage: Stage::Waiting,
            stderr: String::new(),
            revision: 0,
        }
    }

    fn reject(&mut self, what: &str, e: &str, elapsed_ms: u64) -> (action: BuildAction)
        ensures
            final(self)@ == at_stage(old(self)@, Stage::Over),
            action@ == BuildActionView::Reject(
                failed(
                    old(self)@.slot,
                    "r"@ + decimal(old(self)@.revision as nat) + what@ + e@,
                    old(self)@.stderr,
                    elapsed_ms,
                ),
            ),
    {
        self.stage = Stage::Over;
        let detail = "r".to_owned().concat(text::number(self.revision).as_str()).concat(
            what,
        ).concat(e);
        BuildAction::Reject(
            Outcome::failure(&self.slot, detail.as_str(), self.stderr.as_str(), elapsed_ms),
        )
    }

    /// Takes what just happened and says what to do next. `elapsed_ms` is how
    /// long the build has taken so far.
    pub fn step(&mut self, event: BuildEvent, elapsed_ms: u64) -> (action: BuildAction)
        requires
            build_expects(old(self)@, event),
        ensures
            (final(self)@, action@) == build_stepped(old(self)@, event, elapsed_ms),
    {
        match event {
            BuildEvent::Begun { granted } => {
                if granted {
                    self.stage = Stage::Compiling;
                    return BuildAction::Compile;
                }
                self.stage = Stage::Over;
                BuildAction::Finish(
                    Outcome::failure(
                        &self.slot,
                        "a build for this slot is already running; its result will cover this change too",
                        String::new().as_str(),
                        elapsed_ms,
                    ),
                )
            },
            BuildEvent::Compiled { success, stderr, artifact } => {
                if !success {
                    self.stage = Stage::Over;
                    return BuildAction::Finish(
                        Outcome::failure(
                            &self.slot,
                            "compilation failed; the running revision is unchanged",
                            stderr.as_str(),
                            elapsed_ms,
                        ),
                    );
                }
                if !artifact {
                    self.stage = Stage::Over;
                    return BuildAction::Fail(
                        "build reported success without an artifact".to_owned(),
                    );
                }
                self.stage = Stage::Comparing;
                self.stderr = stderr;
                BuildAction::Compare
            },
            BuildEvent::Compared { fresh, active, serving } => {
                if let (Some(f), Some((revision, hash))) = (fresh, active) {
                    let in_service = match serving {
                        Some(r) => r == revision,
                        None => false,
                    };
                    if text::same(f.as_str(), hash.as_str()) && in_service {
                        self.stage = Stage::Over;
                        return BuildAction::Finish(
                            Outcome {
                                success: true,
                                slot: self.slot.key(),
                                revision: Some(revision),
                                stderr: self.stderr.clone(),
                                duration_ms: elapsed_ms,
                                detail: "no change: the build is identical to r".to_owned().concat(
                                    text::pad_number(revision, 4).as_str(),
                                ),
                                pending_swap: false,
                            },
                        );
                    }
                }
                self.stage = Stage::Recording;
                BuildAction::Record
            },
            BuildEvent::Recorded { revision } => {
                self.stage = Stage::Loading;
                self.revision = revision;
                BuildAction::Load
            },
            BuildEvent::Loaded { fault } => match fault {
                None => {
                    self.stage = Stage::Testing;
                    BuildAction::Test
                },
                Some(e) => self.reject(" is not a valid component: ", e.as_str(), elapsed_ms),
            },
            BuildEvent::Tested { fault } => match fault {
                None => {
                    self.stage = Stage::Over;
                    let cause = self.origin.label().to_owned().concat(": ").concat(
                        self.note.as_str(),
                    );
                    let is_agent = match &self.slot {
                        Slot::Agent => true,
                        _ => false,
                    };
                    let outcome = Outcome {
                        success: true,
                        slot: self.slot.key(),
                        revision: Some(self.revision),
                        stderr: self.stderr.clone(),
                        duration_ms: elapsed_ms,
                        detail: String::new(),
                        // A turn in flight finishes on the old code, so from
                        // the agent's point of view its own changes land on
                        // the next turn.
                        pending_swap: is_agent,
                    };
                    BuildAction::GoLive(cause, outcome)
                },
                Some(e) => self.reject(
                    " compiled but failed its smoke test: ",
                    e.as_str(),
                    elapsed_ms,
                ),
            },
        }
    }
}

/// A component goes live only after it has passed its smoke test, and whenever
/// it has.
pub proof fn law_only_a_tested_build_goes_live(
    run: BuildRunView,
    event: BuildEvent,
    elapsed_ms: u64,
)
    requires
        build_expects(run, event),
    ensures
        build_stepped(run, event, elapsed_ms).1 is GoLive <==> (event matches BuildEvent::Tested {
            fault,
        } && fault is None),
{
}

/// A build that fails any gate says so, names no revision, and either never
/// recorded one or takes the one it recorded out of service.
pub proof fn law_a_failed_gate_leaves_what_runs_alone(
    run: BuildRunView,
    event: BuildEvent,
    elapsed_ms: u64,
)
    requires
        build_expects(run, event),
    ensures
        build_stepped(run, event, elapsed_ms).1 matches BuildActionView::Reject(o) ==> !o.success
            && o.revision is None && !o.pending_swap && (run.stage is Loading
            || run.stage is Testing),
        build_stepped(run, event, elapsed_ms).1 matches BuildActionView::Finish(o) ==> (o.success
            ==> run.stage is Comparing) && !o.pending_swap,
{
}

/// Only a change to the agent itself waits for the turn to end.
pub proof fn law_only_the_agent_waits_for_its_turn(
    run: BuildRunView,
    event: BuildEvent,
    elapsed_ms: u64,
)
    requires
        build_expects(run, event),
    ensures
        build_stepped(run, event, elapsed_ms).1 matches BuildActionView::GoLive(cause, o)
            ==> o.pending_swap == (run.slot is Agent) && o.success && o.revision == Some(
            run.revision,
        ),
{
}

// --- the smoke test ---------------------------------------------------------

/// What a candidate is asked during its smoke test.
#[derive(Debug, Clone, Copy, PartialEq, Eq, Structural)]
pub enum Probe {
    /// To be instantiated.
    Instantiate,
    /// For its health.
    Health,
    /// To describe itself.
    Describe,
    /// For its index page.
    ServeIndex,
    /// To handle a client's message.
    ClientMessage,
}

/// What a candidate answered.
#[derive(Debug, PartialEq, Eq)]
pub enum Answer {
    /// The call failed.
    Failed(String),
    /// The call returned, with nothing that matters.
    Returned,
    /// A health report.
    Health(String),
    /// How a tool introduces itself.
    Manifest(ToolManifest),
    /// How many bytes the index page has, if there is one.
    Page(Option<u64>),
}

/// What follows from an answer.
#[derive(Debug, PartialEq, Eq)]
pub enum Verdict {
    /// Ask this next.
    Ask(Probe),
    /// It passed.
    Pass,
    /// It failed, and why.
    Fail(String),
}

/// What follows from an answer, as text.
pub enum VerdictView {
    /// Ask this next.
    Ask(Probe),
    /// It passed.
    Pass,
    /// It failed, and why.
    Fail(Seq<char>),
}

impl View for Verdict {
    type V = VerdictView;

    open spec fn view(&self) -> VerdictView {
        match self {
            Verdict::Ask(p) => VerdictView::Ask(*p),
            Verdict::Pass => VerdictView::Pass,
            Verdict::Fail(e) => VerdictView::Fail(e@),
        }
    }
}

/// What a call was for, as its failure says.
pub open spec fn probe_word(probe: Probe) -> Seq<char> {
    match probe {
        Probe::Instantiate => "instantiating"@,
        Probe::Health => "health probe"@,
        Probe::Describe => "describe"@,
        Probe::ServeIndex => "serve-asset"@,
        Probe::ClientMessage => "on-client-message"@,
    }
}

fn probe_label(probe: Probe) -> (r: String)
    ensures
        r@ == probe_word(probe),
{
    match probe {
        Probe::Instantiate => "instantiating".to_owned(),
        Probe::Health => "health probe".to_owned(),
        Probe::Describe => "describe".to_owned(),
        Probe::ServeIndex => "serve-asset".to_owned(),
        Probe::ClientMessage => "on-client-message".to_owned(),
    }
}

/// Whether a probe is one that a component for this slot is asked.
pub open spec fn asked_of(slot: SlotView, probe: Probe) -> bool {
    match slot {
        SlotView::Agent => probe is Instantiate || probe is Health || probe is Describe,
        SlotView::Gateway(_) => probe is Instantiate || probe is ServeIndex
            || probe is ClientMessage,
        SlotView::Tool(_) => probe is Instantiate || probe is Describe,
    }
}

/// Whether an answer is of the kind that a probe gets.
pub open spec fn answers(slot: SlotView, probe: Probe, answer: Answer) -> bool {
    answer is Failed || match probe {
        Probe::Instantiate => answer is Returned,
        Probe::Health => answer is Health,
        Probe::Describe => if slot is Tool {
            answer is Manifest
        } else {
            answer is Returned
        },
        Probe::ServeIndex => answer is Page,
        Probe::ClientMessage => answer is Returned,
    }
}

/// What is asked first once a component is instantiated.
pub open spec fn first_probe(slot: SlotView) -> Probe {
    match slot {
        SlotView::Agent => Probe::Health,
        SlotView::Gateway(_) => Probe::ServeIndex,
        SlotView::Tool(_) => Probe::Describe,
    }
}

/// What follows from a tool's manifest. A mismatch of names would make the
/// tool uncallable: the model would be told one name and the registry keyed by
/// another.
pub open spec fn manifest_verdict(
    slot_name: Seq<char>,
    name: Seq<char>,
    schema: Result<JsonView, Seq<char>>,
) -> VerdictView {
    if trimmed(name).len() == 0 {
        VerdictView::Fail("tool manifest has no name"@)
    } else if name != slot_name {
        VerdictView::Fail(
            "tool manifest says '"@ + name + "' but the slot is '"@ + slot_name + "'"@,
        )
    } else {
        match schema {
            Ok(_) => VerdictView::Pass,
            Err(e) => VerdictView::Fail("argument schema is not valid JSON: "@ + e),
        }
    }
}

/// What follows from a tool's manifest, given what its schema parsed to.
pub fn judge_manifest(slot_name: &str, name: &str, schema: Result<Json, String>) -> (r: Verdict)
    ensures
        r@ == manifest_verdict(slot_name@, name@, json::parse_of(schema)),
{
    if text::is_blank(name) {
        return Verdict::Fail("tool manifest has no name".to_owned());
    }
    if !text::same(name, slot_name) {
        return Verdict::Fail(
            "tool manifest says '".to_owned().concat(name).concat("' but the slot is '").concat(
                slot_name,
            ).concat("'"),
        );
    }
    match schema {
        Ok(_) => Verdict::Pass,
        Err(e) => Verdict::Fail(
            "argument schema is not valid JSON: ".to_owned().concat(e.as_str()),
        ),
    }
}

/// What follows from an answer. This is what stops a self-modification from
/// making the system unreachable: a component that traps, hangs, or is missing
/// an export never becomes active.
pub open spec fn verdict(slot: SlotView, probe: Probe, answer: Answer) -> VerdictView {
    match answer {
        Answer::Failed(e) => VerdictView::Fail(probe_word(probe) + ": "@ + e@),
        Answer::Health(s) => if trimmed(s@).len() == 0 {
            VerdictView::Fail("health probe returned nothing"@)
        } else {
            VerdictView::Ask(Probe::Describe)
        },
        // A gateway that cannot serve its own index page would leave the user
        // with a blank screen.
        Answer::Page(size) => if size matches Some(n) && n > 0 {
            VerdictView::Ask(Probe::ClientMessage)
        } else {
            VerdictView::Fail("serve-asset(\"/\") returned no page"@)
        },
        Answer::Manifest(m) => manifest_verdict(
            slot->Tool_0,
            m.name@,
            json::parsed(m.args_schema_json@),
        ),
        Answer::Returned => if probe is Instantiate {
            VerdictView::Ask(first_probe(slot))
        } else {
            VerdictView::Pass
        },
    }
}

/// Decides what follows from a candidate's answer.
pub fn judge(slot: &Slot, probe: Probe, answer: &Answer) -> (r: Verdict)
    requires
        asked_of(slot@, probe),
        answers(slot@, probe, *answer),
    ensures
        r@ == verdict(slot@, probe, *answer),
{
    match answer {
        Answer::Failed(e) => Verdict::Fail(probe_label(probe).concat(": ").concat(e.as_str())),
        Answer::Health(s) => if text::is_blank(s.as_str()) {
            Verdict::Fail("health probe returned nothing".to_owned())
        } else {
            Verdict::Ask(Probe::Describe)
        },
        Answer::Page(size) => {
            let some = match size {
                Some(n) => *n > 0,
                None => false,
            };
            if some {
                Verdict::Ask(Probe::ClientMessage)
            } else {
                Verdict::Fail("serve-asset(\"/\") returned no page".to_owned())
            }
        },
        Answer::Manifest(m) => match slot {
            Slot::Tool(name) => judge_manifest(
                name.as_str(),
                m.name.as_str(),
                json::parse(m.args_schema_json.as_str()),
            ),
            _ => Verdict::Pass,
        },
        Answer::Returned => match probe {
            Probe::Instantiate => match slot {
                Slot::Agent => Verdict::Ask(Probe::Health),
                Slot::Gateway(_) => Verdict::Ask(Probe::ServeIndex),
                Slot::Tool(_) => Verdict::Ask(Probe::Describe),
            },
            _ => Verdict::Pass,
        },
    }
}

/// How far a smoke test has got.
pub open spec fn probe_rank(probe: Probe) -> nat {
    match probe {
        Probe::Instantiate => 0,
        Probe::Health => 1,
        Probe::ServeIndex => 1,
        Probe::Describe => 2,
        Probe::ClientMessage => 2,
    }
}

/// A smoke test always comes to an end, and only ever asks what the slot's
/// kind of component is asked.
pub proof fn law_smoke_tests_end(slot: SlotView, probe: Probe, answer: Answer)
    requires
        asked_of(slot, probe),
        answers(slot, probe, answer),
    ensures
        verdict(slot, probe, answer) matches VerdictView::Ask(next) ==> asked_of(slot, next)
            && probe_rank(next) > probe_rank(probe),
{
}

/// A call that fails fails the smoke test.
pub proof fn law_a_failed_call_fails_the_test(slot: SlotView, probe: Probe, e: String)
    ensures
        verdict(slot, probe, Answer::Failed(e)) is Fail,
{
}

// --- rolling back -----------------------------------------------------------

/// The revision a rollback goes to: the one that was named, or the last one
/// known to have worked; or why there is none.
pub open spec fn rollback_choice(
    key: Seq<char>,
    rows: Seq<RowView>,
    revision: Option<u64>,
) -> Result<RowView, Seq<char>> {
    match revision {
        Some(n) => match row_at(rows, n) {
            Some(row) => Ok(row),
            None => Err(key + " has no revision "@ + decimal(n as nat)),
        },
        None => match fallback_row(rows) {
            Some(row) => Ok(row),
            None => Err(key + " has no earlier revision to fall back to"@),
        },
    }
}

/// Finds the revision a rollback goes to.
pub fn choose_rollback(book: &Revisions, slot: &Slot, revision: Option<u64>) -> (r: Result<
    RevisionRow,
    String,
>)
    ensures
        match r {
            Ok(row) => rollback_choice(
                slot_key(slot@),
                book@.history(slot_key(slot@)),
                revision,
            ) == Ok::<RowView, Seq<char>>(row@),
            Err(e) => rollback_choice(
                slot_key(slot@),
                book@.history(slot_key(slot@)),
                revision,
            ) == Err::<RowView, Seq<char>>(e@),
        },
{
    let rows = book.history(slot);
    match revision {
        Some(n) => match find_row(&rows, n) {
            Some(row) => Ok(row),
            None => Err(
                slot.key().concat(" has no revision ").concat(text::number(n).as_str()),
            ),
        },
        None => match find_fallback(&rows) {
            Some(row) => Ok(row),
            None => Err(slot.key().concat(" has no earlier revision to fall back to")),
        },
    }
}

/// The message where the component of the revision cannot be loaded again.
pub open spec fn reload_text(key: Seq<char>, revision: u64, e: Seq<char>) -> Seq<char> {
    "reloading "@ + key + " r"@ + decimal(revision as nat) + ": "@ + e
}

fn reload_fault(slot: &Slot, revision: u64, e: &str) -> (r: String)
    ensures
        r@ == reload_text(slot_key(slot@), revision, e@),
{
    "reloading ".to_owned().concat(slot.key().as_str()).concat(" r").concat(
        text::number(revision).as_str(),
    ).concat(": ").concat(e)
}

/// The message where the revision does not pass its smoke test.
pub open spec fn retest_text(key: Seq<char>, revision: u64, e: Seq<char>) -> Seq<char> {
    key + " r"@ + decimal(revision as nat) + " failed its smoke test: "@ + e
}

fn retest_fault(slot: &Slot, revision: u64, e: &str) -> (r: String)
    ensures
        r@ == retest_text(slot_key(slot@), revision, e@),
{
    slot.key().concat(" r").concat(text::number(revision).as_str()).concat(
        " failed its smoke test: ",
    ).concat(e)
}

/// What a rollback is waiting for.
#[derive(Debug, Clone, Copy, PartialEq, Eq, Structural)]
pub enum RollbackStage {
    /// The revision to go back to.
    Choosing,
    /// Its component.
    Loading,
    /// The smoke test.
    Testing,
    /// The watcher to be mute for the slot.
    Muting,
    /// The source tree.
    Restoring,
    /// The component to be in service.
    Installing,
    /// Nothing: it is over.
    Over,
}

/// A rollback of one slot under way.
pub struct RollbackRun {
    /// The slot.
    pub slot: Slot,
    /// The revision it goes back to, once that is chosen.
    pub revision: u64,
    /// What it is waiting for.
    pub stage: RollbackStage,
}

/// The state of a rollback.
pub struct RollbackRunView {
    /// The slot.
    pub slot: SlotView,
    /// The revision it goes back to.
    pub revision: u64,
    /// What it is waiting for.
    pub stage: RollbackStage,
}

impl View for RollbackRun {
    type V = RollbackRunView;

    open spec fn view(&self) -> RollbackRunView {
        RollbackRunView { slot: self.slot@, revision: self.revision, stage: self.stage }
    }
}

/// What just happened to a rollback.
#[derive(Debug, PartialEq, Eq)]
pub enum RollbackEvent {
    /// The revision was chosen, or why there is none.
    Chosen {
        /// The revision.
        target: Result<u64, String>,
    },
    /// The component was loaded, or why not.
    Loaded {
        /// Why it was not loaded.
        fault: Option<String>,
    },
    /// The smoke test passed, or why not.
    Tested {
        /// Why it did not pass.
        fault: Option<String>,
    },
    /// The watcher is mute for the slot.
    Muted,
    /// The source tree was put back, if there was one to put back.
    Restored,
    /// The component is in service.
    Installed,
}

/// What a rollback wants done next.
#[derive(Debug, PartialEq, Eq)]
pub enum RollbackAction {
    /// Load the component of the revision.
    Load(u64),
    /// Run the smoke test on it.
    Test,
    /// Mute the watcher for the slot.
    Mute,
    /// Put the source tree back to how it was at the revision.
    Restore(u64),
    /// Put the component into service.
    Install,
    /// Enter the rollback to the revision in the book, and end.
    Enter(u64),
    /// End with an error.
    Fail(String),
}

/// What a rollback wants done next, as text.
pub enum RollbackActionView {
    /// Load the component of the revision.
    Load(u64),
    /// Run the smoke test on it.
    Test,
    /// Mute the watcher for the slot.
    Mute,
    /// Put the source tree back.
    Restore(u64),
    /// Put the component into service.
    Install,
    /// Enter the rollback in the book, and end.
    Enter(u64),
    /// End with an error.
    Fail(Seq<char>),
}

impl View for RollbackAction {
    type V = RollbackActionView;

    open spec fn view(&self) -> RollbackActionView {
        match self {
            RollbackAction::Load(n) => RollbackActionView::Load(*n),
            RollbackAction::Test => RollbackActionView::Test,
            RollbackAction::Mute => RollbackActionView::Mute,
            RollbackAction::Restore(n) => RollbackActionView::Restore(*n),
            RollbackAction::Install => RollbackActionView::Install,
            RollbackAction::Enter(n) => RollbackActionView::Enter(*n),
            RollbackAction::Fail(e) => RollbackActionView::Fail(e@),
        }
    }
}

/// Whether an event is one that a rollback is waiting for.
pub open spec fn rollback_expects(run: RollbackRunView, event: RollbackEvent) -> bool {
    match event {
        RollbackEvent::Chosen { .. } => run.stage is Choosing,
        RollbackEvent::Loaded { .. } => run.stage is Loading,
        RollbackEvent::Tested { .. } => run.stage is Testing,
        RollbackEvent::Muted => run.stage is Muting,
        RollbackEvent::Restored => run.stage is Restoring,
        RollbackEvent::Installed => run.stage is Installing,
    }
}

/// A rollback at a later stage, and what it wants done there.
pub open spec fn rolls_on(
    run: RollbackRunView,
    stage: RollbackStage,
    action: RollbackActionView,
) -> (RollbackRunView, RollbackActionView) {
    (RollbackRunView { stage, ..run }, action)
}

/// What becomes of a rollback when something happens. The watcher is muted before
/// the source tree is put back, since a restored tree looks like an edit and would
/// be built over the rollback; and the source comes before the component, so that
/// nothing that runs has changed if it fails.
pub open spec fn rollback_stepped(run: RollbackRunView, event: RollbackEvent) -> (
    RollbackRunView,
    RollbackActionView,
) {
    match event {
        RollbackEvent::Chosen { target } => match target {
            Ok(n) => rolls_on(
                RollbackRunView { revision: n, ..run },
                RollbackStage::Loading,
                RollbackActionView::Load(n),
            ),
            Err(e) => rolls_on(run, RollbackStage::Over, RollbackActionView::Fail(e@)),
        },
        RollbackEvent::Loaded { fault } => match fault {
            Some(e) => rolls_on(
                run,
                RollbackStage::Over,
                RollbackActionView::Fail(reload_text(slot_key(run.slot), run.revision, e@)),
            ),
            None => rolls_on(run, RollbackStage::Testing, RollbackActionView::Test),
        },
        RollbackEvent::Tested { fault } => match fault {
            Some(e) => rolls_on(
                run,
                RollbackStage::Over,
                RollbackActionView::Fail(retest_text(slot_key(run.slot), run.revision, e@)),
            ),
            None => rolls_on(run, RollbackStage::Muting, RollbackActionView::Mute),
        },
        RollbackEvent::Muted => rolls_on(
            run,
            RollbackStage::Restoring,
            RollbackActionView::Restore(run.revision),
        ),
        RollbackEvent::Restored => rolls_on(
            run,
            RollbackStage::Installing,
            RollbackActionView::Install,
        ),
        RollbackEvent::Installed => rolls_on(
            run,
            RollbackStage::Over,
            RollbackActionView::Enter(run.revision),
        ),
    }
}

impl RollbackRun {
    /// A rollback about to start.
    pub fn new(slot: &Slot) -> (r: RollbackRun)
        ensures
            r@ == (RollbackRunView { slot: slot@, revision: 0, stage: RollbackStage::Choosing }),
    {
        RollbackRun { slot: slot.clone(), revision: 0, stage: RollbackStage::Choosing }
    }

    /// Takes what just happened and says what to do next.
    pub fn step(&mut self, event: RollbackEvent) -> (action: RollbackAction)
        requires
            rollback_expects(old(self)@, event),
        ensures
            (final(self)@, action@) == rollback_stepped(old(self)@, event),
    {
        match event {
            RollbackEvent::Chosen { target } => match target {
                Ok(n) => {
                    self.revision = n;
                    self.stage = RollbackStage::Loading;
                    RollbackAction::Load(n)
                },
                Err(e) => {
                    self.stage = RollbackStage::Over;
                    RollbackAction::Fail(e)
                },
            },
            RollbackEvent::Loaded { fault } => match fault {
                Some(e) => {
                    self.stage = RollbackStage::Over;
                    RollbackAction::Fail(reload_fault(&self.slot, self.revision, e.as_str()))
                },
                None => {
                    self.stage = RollbackStage::Testing;
                    RollbackAction::Test
                },
            },
            RollbackEvent::Tested { fault } => match fault {
                Some(e) => {
                    self.stage = RollbackStage::Over;
                    RollbackAction::Fail(retest_fault(&self.slot, self.revision, e.as_str()))
                },
                None => {
                    self.stage = RollbackStage::Muting;
                    RollbackAction::Mute
                },
            },
            RollbackEvent::Muted => {
                self.stage = RollbackStage::Restoring;
                RollbackAction::Restore(self.revision)
            },
            RollbackEvent::Restored => {
                self.stage = RollbackStage::Installing;
                RollbackAction::Install
            },
            RollbackEvent::Installed => {
                self.stage = RollbackStage::Over;
                RollbackAction::Enter(self.revision)
            },
        }
    }
}

/// A rollback touches neither the source tree nor what runs before its component
/// has been loaded and has passed the smoke test.
pub proof fn law_a_rollback_is_tested_first(run: RollbackRunView, event: RollbackEvent)
    requires
        rollback_expects(run, event),
    ensures
        rollback_stepped(run, event).1 is Mute ==> run.stage is Testing && event
            == (RollbackEvent::Tested { fault: None }),
        rollback_stepped(run, event).1 is Restore ==> run.stage is Muting,
        rollback_stepped(run, event).1 is Install ==> run.stage is Restoring,
        rollback_stepped(run, event).1 is Enter ==> run.stage is Installing,
        rollback_stepped(run, event).1 is Fail ==> run.stage is Choosing || run.stage is Loading
            || run.stage is Testing,
{
}

/// The revision that was active, if any was.
pub open spec fn previous_of(rows: Seq<RowView>) -> Option<u64> {
    match active_row(rows) {
        Some(r) => Some(r.revision),
        None => None,
    }
}

/// The book after a rollback: the target is active, and what it replaced is
/// marked as rolled away from.
pub open spec fn rolled_back(
    book: BookView,
    shelf: Shelf,
    key: Seq<char>,
    revision: u64,
    now: u64,
) -> BookView {
    let after = book.promoted(key, revision).snapped(
        shelf,
        "rollback to r"@ + decimal(revision as nat),
        now,
    );
    match previous_of(book.history(key)) {
        Some(p) => if p != revision {
            after.marked(key, p, Status::RolledBack)
        } else {
            after
        },
        None => after,
    }
}

/// What is said of a rollback.
pub open spec fn rollback_text(
    key: Seq<char>,
    revision: u64,
    previous: Option<u64>,
) -> Seq<char> {
    key + " rolled back to r"@ + zero_padded(revision as nat, 4) + (match previous {
        Some(p) => " (from r"@ + zero_padded(p as nat, 4) + ")"@,
        None => Seq::empty(),
    })
}

proof fn lemma_active_in_range(rows: Seq<RowView>, from: int)
    requires
        from >= 0,
        forall|i: int| 0 <= i < rows.len() ==> (#[trigger] rows[i]).revision == from + i + 1,
    ensures
        active_row(rows) matches Some(r) ==> from + 1 <= r.revision <= from + rows.len(),
    decreases rows.len(),
{
    if rows.len() > 0 {
        assert(rows[0].revision == from + 1);
        let rest = rows.skip(1);
        assert forall|i: int| 0 <= i < rest.len() implies (#[trigger] rest[i]).revision == (from
            + 1) + i + 1 by {
            assert(rest[i] == rows[i + 1]);
        }
        lemma_active_in_range(rest, from + 1);
    }
}

/// Enters a rollback in the book and says what it was. The component itself is
/// in service already.
pub fn enter_rollback(
    book: &mut Revisions,
    shelf: &Shelf,
    slot: &Slot,
    revision: u64,
    now: u64,
) -> (r: String)
    requires
        old(book)@.snapshots.len() < u64::MAX,
    ensures
        final(book)@ == rolled_back(old(book)@, *shelf, slot_key(slot@), revision, now),
        r@ == rollback_text(
            slot_key(slot@),
            revision,
            previous_of(old(book)@.history(slot_key(slot@))),
        ),
{
    let key = slot.key();
    let rows = book.history(slot);
    let previous = match find_active(&rows) {
        Some(row) => Some(row.revision),
        None => None,
    };
    proof {
        lemma_active_in_range(row_views(rows@), 0);
    }
    let cause = "rollback to r".to_owned().concat(text::number(revision).as_str());
    book.activate(slot, revision, shelf, cause.as_str(), now);
    let mut message = key.concat(" rolled back to r").concat(
        text::pad_number(revision, 4).as_str(),
    );
    match previous {
        Some(p) => {
            if p != revision {
                let done = book.mark(slot, p, Status::RolledBack);
                assert(done is Ok);
            }
            let from = " (from r".to_owned().concat(text::pad_number(p, 4).as_str()).concat(")");
            message.append(from.as_str());
        },
        None => {
            assert(message@ + Seq::<char>::empty() =~= message@);
        },
    }
    message
}

/// After a rollback the target is the active revision, and what it replaced is
/// marked as rolled away from.
pub proof fn law_rollback_restores_the_target(
    book: BookView,
    shelf: Shelf,
    key: Seq<char>,
    revision: u64,
    now: u64,
)
    requires
        numbered(book.history(key), key),
        1 <= revision <= book.history(key).len(),
    ensures
        active_row(rolled_back(book, shelf, key, revision, now).history(key)) matches Some(r)
            && r.revision == revision,
        previous_of(book.history(key)) matches Some(p) ==> p == revision || (rolled_back(
            book,
            shelf,
            key,
            revision,
            now,
        ).history(key)[p - 1].status is RolledBack),
{
    let rows = book.history(key);
    assert(book.rows.contains_key(key));
    let up = promoted(rows, revision);
    crate::revisions::law_the_promoted_revision_is_active(rows, key, revision);
    lemma_active_in_range(rows, 0);
    assert forall|i: int| 0 <= i < rows.len() implies ((#[trigger] up[i]).status is Active) == (i
        + 1 == revision) && up[i].revision == i + 1 by {
        crate::revisions::law_promotion(rows, key, revision, i);
        assert(rows[i].revision == i + 1);
    }
    if let Some(p) = previous_of(rows) {
        if p != revision {
            let after = marked(up, p, Status::RolledBack);
            assert forall|i: int| 0 <= i < after.len() implies ((#[trigger] after[i]).status
                is Active) == (i == revision - 1) && after[i].revision == i + 1 by {
                assert(up[i].revision == i + 1);
            }
            crate::revisions::lemma_only_active(after, revision - 1);
            assert(up[p - 1].revision == p);
        }
    }
}

// --- rolling the whole system back ------------------------------------------

/// The snapshot a rollback of the whole system goes to. Without an explicit
/// id, the most recent snapshot before the current one is what "undo the last
/// change" means.
pub open spec fn system_choice(
    snapshots: Seq<SnapshotView>,
    id: Option<u64>,
) -> Result<u64, Seq<char>> {
    let wanted = match id {
        Some(n) => Some(n),
        None => if snapshots.len() >= 2 {
            Some(snapshots[snapshots.len() - 2].id)
        } else {
            None
        },
    };
    match wanted {
        None => Err("there is no earlier system snapshot"@),
        Some(n) => if 1 <= n <= snapshots.len() {
            Ok(n)
        } else {
            Err("no system snapshot "@ + decimal(n as nat))
        },
    }
}

/// Finds the snapshot a rollback of the whole system goes to.
pub fn choose_snapshot(book: &Revisions, id: Option<u64>) -> (r: Result<u64, String>)
    ensures
        match r {
            Ok(n) => system_choice(book@.snapshots, id) == Ok::<u64, Seq<char>>(n),
            Err(e) => system_choice(book@.snapshots, id) == Err::<u64, Seq<char>>(e@),
        },
{
    let list = book.snapshots();
    assert(book@.snapshots.len() == list@.len());
    let wanted = match id {
        Some(n) => n,
        None => {
            let count: usize = list.len();
            if count < 2 {
                return Err("there is no earlier system snapshot".to_owned());
            }
            assert(book@.snapshots[count - 2] == list@[count - 2]@);
            list[count - 2].id
        },
    };
    match book.snapshot_by_id(wanted) {
        Some(_) => Ok(wanted),
        None => Err("no system snapshot ".to_owned().concat(text::number(wanted).as_str())),
    }
}

/// The rollbacks that restore a snapshot, in the order of the slots' keys. A
/// key that names no slot is passed over.
pub open spec fn restore_plan(keys: Seq<Seq<char>>, slots: Map<Seq<char>, u64>) -> Seq<
    (SlotView, u64),
>
    decreases keys.len(),
{
    if keys.len() == 0 {
        Seq::empty()
    } else {
        match slot_named(keys.last()) {
            Some(s) => restore_plan(keys.drop_last(), slots).push((s, slots[keys.last()])),
            None => restore_plan(keys.drop_last(), slots),
        }
    }
}

/// What a plan says.
pub open spec fn plan_views(plan: Seq<(Slot, u64)>) -> Seq<(SlotView, u64)> {
    plan.map_values(|p: (Slot, u64)| (p.0@, p.1))
}

/// The rollbacks that restore a snapshot.
pub fn plan_restore(snapshot: &SystemSnapshot) -> (r: Vec<(Slot, u64)>)
    ensures
        plan_views(r@) == restore_plan(snapshot.slots.key_list(), snapshot.slots@),
{
    let mut out: Vec<(Slot, u64)> = Vec::new();
    let ghost keys = snapshot.slots.key_list();
    assert(keys.take(0) =~= Seq::<Seq<char>>::empty());
    assert(plan_views(out@) =~= Seq::<(SlotView, u64)>::empty());
    let n: usize = snapshot.slots.len();
    for i in 0..n
        invariant
            keys == snapshot.slots.key_list(),
            n == keys.len(),
            plan_views(out@) == restore_plan(keys.take(i as int), snapshot.slots@),
    {
        let ghost had = out@;
        proof {
            assert(keys.take(i + 1).drop_last() =~= keys.take(i as int));
            assert(keys.take(i + 1).last() == keys[i as int]);
        }
        let key = snapshot.slots.key_at(i);
        let revision: u64 = *snapshot.slots.value_at(i);
        if let Ok(s) = Slot::parse(key.as_str()) {
            let ghost step = (s@, revision);
            out.push((s, revision));
            assert(plan_views(out@) =~= plan_views(had).push(step));
        }
    }
    assert(keys.take(n as int) =~= keys);
    out
}

/// The book after the rollbacks of a plan, one after the other.
pub open spec fn all_rolled_back(
    book: BookView,
    shelf: Shelf,
    plan: Seq<(SlotView, u64)>,
    now: u64,
) -> BookView
    decreases plan.len(),
{
    if plan.len() == 0 {
        book
    } else {
        rolled_back(
            all_rolled_back(book, shelf, plan.drop_last(), now),
            shelf,
            slot_key(plan.last().0),
            plan.last().1,
            now,
        )
    }
}

proof fn lemma_rolled_back_keeps(
    book: BookView,
    shelf: Shelf,
    key: Seq<char>,
    revision: u64,
    now: u64,
    other: Seq<char>,
)
    requires
        numbered(book.history(key), key),
        numbered(book.history(other), other),
        1 <= revision <= book.history(key).len(),
    ensures
        ({
            let after = rolled_back(book, shelf, key, revision, now);
            &&& other != key ==> after.history(other) == book.history(other)
            &&& after.history(other).len() == book.history(other).len()
            &&& numbered(after.history(other), other)
        }),
{
    let rows = book.history(key);
    assert(book.rows.contains_key(key));
    let up = promoted(rows, revision);
    lemma_active_in_range(rows, 0);
    if other == key {
        assert forall|i: int| 0 <= i < rows.len() implies (#[trigger] up[i]).revision == i + 1
            && up[i].slot == key by {
            assert(rows[i].revision == i + 1);
        }
        let after = rolled_back(book, shelf, key, revision, now).history(key);
        assert forall|i: int| 0 <= i < after.len() implies (#[trigger] after[i]).revision == i + 1
            && after[i].slot == key by {
            assert(up[i].revision == i + 1);
        }
    }
}

proof fn lemma_plan_keeps(
    book: BookView,
    shelf: Shelf,
    plan: Seq<(SlotView, u64)>,
    now: u64,
    other: Seq<char>,
)
    requires
        forall|key: Seq<char>| numbered(#[trigger] book.history(key), key),
        forall|j: int|
            0 <= j < plan.len() ==> 1 <= (#[trigger] plan[j]).1 <= book.history(
                slot_key(plan[j].0),
            ).len(),
    ensures
        numbered(all_rolled_back(book, shelf, plan, now).history(other), other),
        all_rolled_back(book, shelf, plan, now).history(other).len() == book.history(other).len(),
        (forall|j: int| 0 <= j < plan.len() ==> slot_key((#[trigger] plan[j]).0) != other)
            ==> all_rolled_back(book, shelf, plan, now).history(other) == book.history(other),
    decreases plan.len(),
{
    assert(numbered(book.history(other), other));
    if plan.len() > 0 {
        let rest = plan.drop_last();
        assert forall|j: int| 0 <= j < rest.len() implies 1 <= (#[trigger] rest[j]).1
            <= book.history(slot_key(rest[j].0)).len() by {
            assert(rest[j] == plan[j]);
        }
        let key = slot_key(plan[plan.len() - 1].0);
        lemma_plan_keeps(book, shelf, rest, now, other);
        lemma_plan_keeps(book, shelf, rest, now, key);
        let before = all_rolled_back(book, shelf, rest, now);
        lemma_rolled_back_keeps(before, shelf, key, plan[plan.len() - 1].1, now, other);
        if forall|j: int| 0 <= j < plan.len() ==> slot_key((#[trigger] plan[j]).0) != other {
            assert forall|j: int| 0 <= j < rest.len() implies slot_key((#[trigger] rest[j]).0)
                != other by {
                assert(rest[j] == plan[j]);
            }
            assert(slot_key(plan[plan.len() - 1].0) != other);
        }
    }
}

/// Restoring a snapshot moves every slot in it back together: each then runs the
/// revision that the snapshot recorded, and a slot that is not in it is left as it
/// was.
pub proof fn law_a_restored_system_runs_the_snapshot(
    book: BookView,
    shelf: Shelf,
    plan: Seq<(SlotView, u64)>,
    now: u64,
    i: int,
    other: Seq<char>,
)
    requires
        book.ok(),
        forall|j: int|
            0 <= j < plan.len() ==> 1 <= (#[trigger] plan[j]).1 <= book.history(
                slot_key(plan[j].0),
            ).len(),
        forall|j: int, k: int|
            0 <= j < k < plan.len() ==> slot_key((#[trigger] plan[j]).0) != slot_key(
                (#[trigger] plan[k]).0,
            ),
        0 <= i < plan.len(),
        forall|j: int| 0 <= j < plan.len() ==> slot_key((#[trigger] plan[j]).0) != other,
    ensures
        active_row(all_rolled_back(book, shelf, plan, now).history(slot_key(plan[i].0))) matches Some(
            r,
        ) && r.revision == plan[i].1,
        all_rolled_back(book, shelf, plan, now).history(other) == book.history(other),
    decreases plan.len(),
{
    assert forall|key: Seq<char>| numbered(#[trigger] book.history(key), key) by {
        if book.rows.contains_key(key) {
            assert(numbered(book.rows[key], key));
        }
    }
    lemma_plan_keeps(book, shelf, plan, now, other);
    let rest = plan.drop_last();
    let last = plan[plan.len() - 1];
    let key = slot_key(last.0);
    assert forall|j: int| 0 <= j < rest.len() implies (#[trigger] rest[j]) == plan[j] by {}
    lemma_plan_keeps(book, shelf, rest, now, key);
    let before = all_rolled_back(book, shelf, rest, now);
    if i == plan.len() - 1 {
        law_rollback_restores_the_target(before, shelf, key, last.1, now);
    } else {
        let mine = slot_key(plan[i].0);
        assert(rest[i] == plan[i]);
        assert(mine != key);
        law_a_restored_system_runs_the_snapshot(book, shelf, rest, now, i, key);
        lemma_plan_keeps(book, shelf, rest, now, mine);
        lemma_rolled_back_keeps(before, shelf, key, last.1, now, mine);
    }
}

/// One rollback of a system restore, and why it failed if it did.
#[derive(Debug, PartialEq, Eq)]
pub struct Restored {
    /// The slot's key.
    pub slot: String,
    /// The revision.
    pub revision: u64,
    /// Why it failed.
    pub fault: Option<String>,
}

/// The rollbacks that worked, as they are listed.
pub open spec fn restored_lines(items: Seq<Restored>) -> Seq<Seq<char>>
    decreases items.len(),
{
    if items.len() == 0 {
        Seq::empty()
    } else if items.last().fault is None {
        restored_lines(items.drop_last()).push(
            items.last().slot@ + "→r"@ + zero_padded(items.last().revision as nat, 4),
        )
    } else {
        restored_lines(items.drop_last())
    }
}

/// The rollbacks that failed, as they are listed.
pub open spec fn failed_lines(items: Seq<Restored>) -> Seq<Seq<char>>
    decreases items.len(),
{
    if items.len() == 0 {
        Seq::empty()
    } else if items.last().fault is None {
        failed_lines(items.drop_last())
    } else {
        failed_lines(items.drop_last()).push(
            items.last().slot@ + ": "@ + text_of(items.last().fault)->0,
        )
    }
}

/// What is said of a system restore.
pub open spec fn restore_text(id: u64, items: Seq<Restored>) -> Seq<char> {
    if failed_lines(items).len() == 0 {
        "system restored to snapshot "@ + decimal(id as nat) + ": "@ + joined(
            restored_lines(items),
            ", "@,
        )
    } else {
        "system partially restored to snapshot "@ + decimal(id as nat) + ": "@ + joined(
            restored_lines(items),
            ", "@,
        ) + " restored; failures: "@ + joined(failed_lines(items), "; "@)
    }
}

/// What is said of a system restore.
pub fn report_restore(id: u64, items: &Vec<Restored>) -> (r: String)
    ensures
        r@ == restore_text(id, items@),
{
    let mut good: Vec<String> = Vec::new();
    let mut bad: Vec<String> = Vec::new();
    assert(items@.take(0) =~= Seq::<Restored>::empty());
    assert(texts(good@) =~= Seq::<Seq<char>>::empty());
    assert(texts(bad@) =~= Seq::<Seq<char>>::empty());
    for i in 0..items.len()
        invariant
            texts(good@) == restored_lines(items@.take(i as int)),
            texts(bad@) == failed_lines(items@.take(i as int)),
    {
        let ghost g = good@;
        let ghost b = bad@;
        proof {
            assert(items@.take(i + 1).drop_last() =~= items@.take(i as int));
            assert(items@.take(i + 1).last() == items@[i as int]);
        }
        match &items[i].fault {
            None => {
                let line = items[i].slot.clone().concat("→r").concat(
                    text::pad_number(items[i].revision, 4).as_str(),
                );
                good.push(line);
                proof {
                    text::lemma_texts_push(g, line);
                }
            },
            Some(e) => {
                let line = items[i].slot.clone().concat(": ").concat(e.as_str());
                bad.push(line);
                proof {
                    text::lemma_texts_push(b, line);
                }
            },
        }
    }
    assert(items@.take(items@.len() as int) =~= items@);
    assert(texts(bad@).len() == bad@.len());
    if bad.len() == 0 {
        "system restored to snapshot ".to_owned().concat(text::number(id).as_str()).concat(
            ": ",
        ).concat(text::join(&good, ", ").as_str())
    } else {
        "system partially restored to snapshot ".to_owned().concat(
            text::number(id).as_str(),
        ).concat(": ").concat(text::join(&good, ", ").as_str()).concat(
            " restored; failures: ",
        ).concat(text::join(&bad, "; ").as_str())
    }
}

/// The cause a system restore is recorded under.
pub open spec fn restore_cause_text(id: u64) -> Seq<char> {
    "system rollback to snapshot "@ + decimal(id as nat)
}

fn restore_cause(id: u64) -> (r: String)
    ensures
        r@ == restore_cause_text(id),
{
    "system rollback to snapshot ".to_owned().concat(text::number(id).as_str())
}

/// A rollback of the whole system under way: what is still to be rolled back, in
/// order, and what came of the rest.
pub struct SystemRun {
    /// The snapshot it goes back to.
    pub id: u64,
    /// Every rollback it takes.
    pub plan: Vec<(Slot, u64)>,
    /// What came of those that were tried.
    pub done: Vec<Restored>,
}

/// What came of a rollback, with the words as text.
pub struct RestoredView {
    /// The slot's key.
    pub slot: Seq<char>,
    /// The revision.
    pub revision: u64,
    /// Why it failed.
    pub fault: Option<Seq<char>>,
}

impl View for Restored {
    type V = RestoredView;

    open spec fn view(&self) -> RestoredView {
        RestoredView {
            slot: self.slot@,
            revision: self.revision,
            fault: text_of(self.fault),
        }
    }
}

/// What came of a rollback of a plan.
pub open spec fn came_of(step: (SlotView, u64), result: Result<String, String>) -> RestoredView {
    RestoredView {
        slot: slot_key(step.0),
        revision: step.1,
        fault: match result {
            Ok(_) => None,
            Err(e) => Some(e@),
        },
    }
}

impl SystemRun {
    /// Starts a rollback of the whole system to a snapshot, or says that there is no
    /// such snapshot.
    pub fn new(book: &Revisions, id: u64) -> (r: Result<SystemRun, String>)
        ensures
            match r {
                Ok(run) => {
                    &&& 1 <= id <= book@.snapshots.len()
                    &&& run.id == id
                    &&& run.done@.len() == 0
                    &&& plan_views(run.plan@) == restore_plan(
                        book.shots()[id - 1].slots.key_list(),
                        book.shots()[id - 1].slots@,
                    )
                },
                Err(e) => !(1 <= id <= book@.snapshots.len()) && e@ == "no system snapshot "@
                    + decimal(id as nat),
            },
    {
        match choose_snapshot(book, Some(id)) {
            Err(e) => Err(e),
            Ok(_) => {
                let list = book.snapshots();
                assert(book@.snapshots.len() == list@.len());
                let count: usize = list.len();
                assert(id <= count);
                let at: usize = (id - 1) as usize;
                let plan = plan_restore(&list[at]);
                Ok(SystemRun { id, plan, done: Vec::new() })
            },
        }
    }

    /// The next rollback, if one is left. One that fails does not stop the others.
    pub fn next(&self) -> (r: Option<(Slot, u64)>)
        ensures
            match r {
                Some(step) => self.done@.len() < self.plan@.len() && (step.0@, step.1)
                    == plan_views(self.plan@)[self.done@.len() as int],
                None => self.done@.len() >= self.plan@.len(),
            },
    {
        let i: usize = self.done.len();
        if i < self.plan.len() {
            Some((self.plan[i].0.clone(), self.plan[i].1))
        } else {
            None
        }
    }

    /// Notes what came of the rollback that was next.
    pub fn note(&mut self, result: Result<String, String>)
        requires
            old(self).done@.len() < old(self).plan@.len(),
        ensures
            final(self).id == old(self).id,
            final(self).plan == old(self).plan,
            final(self).done@.len() == old(self).done@.len() + 1,
            final(self).done@.drop_last() == old(self).done@,
            final(self).done@.last()@ == came_of(
                plan_views(old(self).plan@)[old(self).done@.len() as int],
                result,
            ),
    {
        let i: usize = self.done.len();
        let ghost had = self.done@;
        let item = Restored {
            slot: self.plan[i].0.key(),
            revision: self.plan[i].1,
            fault: match result {
                Ok(_) => None,
                Err(e) => Some(e),
            },
        };
        self.done.push(item);
        assert(self.done@.drop_last() =~= had);
    }

    /// Records the snapshot of what runs now, and says what came of it all.
    pub fn finish(&self, book: &mut Revisions, shelf: &Shelf, now: u64) -> (r: String)
        requires
            old(book)@.snapshots.len() < u64::MAX,
        ensures
            final(book)@ == old(book)@.snapped(*shelf, restore_cause_text(self.id), now),
            r@ == restore_text(self.id, self.done@),
    {
        let cause = restore_cause(self.id);
        let _id = book.snapshot(shelf, cause.as_str(), now);
        report_restore(self.id, &self.done)
    }
}

// --- whole smoke tests ------------------------------------------------------

/// Whether some questions and answers are a whole smoke test that was passed: it
/// starts with the instance, each answer leads to the next question, and the last
/// one ends it well.
pub open spec fn passes(slot: SlotView, talk: Seq<(Probe, Answer)>) -> bool {
    &&& talk.len() > 0
    &&& talk[0].0 is Instantiate
    &&& forall|i: int|
        0 <= i < talk.len() ==> answers(slot, (#[trigger] talk[i]).0, talk[i].1)
    &&& forall|i: int|
        0 <= i < talk.len() - 1 ==> #[trigger] verdict(slot, talk[i].0, talk[i].1)
            == VerdictView::Ask(talk[i + 1].0)
    &&& verdict(slot, talk.last().0, talk.last().1) is Pass
}

/// Whether a text says something.
pub open spec fn says_something(s: Seq<char>) -> bool {
    exists|k: int| 0 <= k < s.len() && !text::is_white(#[trigger] s[k])
}

proof fn lemma_says_something(s: Seq<char>)
    ensures
        says_something(s) == (trimmed(s).len() > 0),
{
    text::lemma_blank(s);
    if trimmed(s).len() > 0 {
        let k = choose|k: int| 0 <= k < s.len() && !text::is_white(s[k]);
        assert(!text::is_white(s[k]));
    }
}

/// An agent passes its smoke test only if it was instantiated, then reported its
/// health in words, then described itself, and nothing else was asked.
pub proof fn law_an_agent_passes_only_in_full(talk: Seq<(Probe, Answer)>)
    requires
        passes(SlotView::Agent, talk),
    ensures
        talk.len() == 3,
        talk[0] == (Probe::Instantiate, Answer::Returned),
        talk[1].0 is Health && (talk[1].1 matches Answer::Health(s) && says_something(s@)),
        talk[2] == (Probe::Describe, Answer::Returned),
{
    let slot = SlotView::Agent;
    assert(answers(slot, talk[0].0, talk[0].1));
    assert(verdict(slot, talk[0].0, talk[0].1) is Ask || talk.len() == 1);
    assert(talk.len() > 1);
    assert(answers(slot, talk[1].0, talk[1].1));
    assert(verdict(slot, talk[1].0, talk[1].1) is Ask || talk.len() == 2);
    assert(talk.len() > 2);
    lemma_says_something(talk[1].1->Health_0@);
    assert(answers(slot, talk[2].0, talk[2].1));
    assert(verdict(slot, talk[2].0, talk[2].1) is Ask || talk.len() == 3);
}

/// A gateway passes its smoke test only if it was instantiated, then served an
/// index page with something on it, then took a client's message, and nothing else
/// was asked.
pub proof fn law_a_gateway_passes_only_in_full(name: Seq<char>, talk: Seq<(Probe, Answer)>)
    requires
        passes(SlotView::Gateway(name), talk),
    ensures
        talk.len() == 3,
        talk[0] == (Probe::Instantiate, Answer::Returned),
        talk[1].0 is ServeIndex && (talk[1].1 matches Answer::Page(Some(n)) && n > 0),
        talk[2] == (Probe::ClientMessage, Answer::Returned),
{
    let slot = SlotView::Gateway(name);
    assert(answers(slot, talk[0].0, talk[0].1));
    assert(verdict(slot, talk[0].0, talk[0].1) is Ask || talk.len() == 1);
    assert(talk.len() > 1);
    assert(answers(slot, talk[1].0, talk[1].1));
    assert(verdict(slot, talk[1].0, talk[1].1) is Ask || talk.len() == 2);
    assert(talk.len() > 2);
    assert(answers(slot, talk[2].0, talk[2].1));
    assert(verdict(slot, talk[2].0, talk[2].1) is Ask || talk.len() == 3);
}

/// A tool passes its smoke test only if it was instantiated, then described itself
/// under the slot's own name with a schema that can be read, and nothing else was
/// asked.
pub proof fn law_a_tool_passes_only_in_full(name: Seq<char>, talk: Seq<(Probe, Answer)>)
    requires
        passes(SlotView::Tool(name), talk),
    ensures
        talk.len() == 2,
        talk[0] == (Probe::Instantiate, Answer::Returned),
        talk[1].0 is Describe && (talk[1].1 matches Answer::Manifest(m) && m.name@ == name
            && says_something(m.name@) && json::parsed(m.args_schema_json@) is Ok),
{
    let slot = SlotView::Tool(name);
    assert(answers(slot, talk[0].0, talk[0].1));
    assert(verdict(slot, talk[0].0, talk[0].1) is Ask || talk.len() == 1);
    assert(talk.len() > 1);
    assert(answers(slot, talk[1].0, talk[1].1));
    assert(verdict(slot, talk[1].0, talk[1].1) is Ask || talk.len() == 2);
    lemma_says_something(talk[1].1->Manifest_0.name@);
}

/// A component that answers everything it is asked well passes its smoke test.
pub proof fn law_a_sound_component_passes(slot: SlotView, talk: Seq<(Probe, Answer)>)
    requires
        talk.len() > 0,
        talk[0] == (Probe::Instantiate, Answer::Returned),
        match slot {
            SlotView::Agent => talk.len() == 3 && talk[1].0 is Health && (
            talk[1].1 matches Answer::Health(s) && says_something(s@)) && talk[2] == (
                Probe::Describe,
                Answer::Returned,
            ),
            SlotView::Gateway(_) => talk.len() == 3 && talk[1].0 is ServeIndex && (
            talk[1].1 matches Answer::Page(Some(n)) && n > 0) && talk[2] == (
                Probe::ClientMessage,
                Answer::Returned,
            ),
            SlotView::Tool(name) => talk.len() == 2 && talk[1].0 is Describe && (
            talk[1].1 matches Answer::Manifest(m) && m.name@ == name && says_something(name)
                && json::parsed(m.args_schema_json@) is Ok),
        },
    ensures
        passes(slot, talk),
{
    match talk[1].1 {
        Answer::Health(s) => {
            lemma_says_something(s@);
        },
        Answer::Manifest(m) => {
            lemma_says_something(m.name@);
        },
        _ => {},
    }
    assert(verdict(slot, talk[0].0, talk[0].1) == VerdictView::Ask(talk[1].0));
    if talk.len() == 3 {
        assert(verdict(slot, talk[1].0, talk[1].1) == VerdictView::Ask(talk[2].0));
    }
    assert forall|i: int| 0 <= i < talk.len() - 1 implies #[trigger] verdict(
        slot,
        talk[i].0,
        talk[i].1,
    ) == VerdictView::Ask(talk[i + 1].0) by {
        assert(i == 0 || i == 1);
    }
}

/// A smoke test that fails says in which call it did, and why.
pub proof fn law_a_failure_is_explained(slot: SlotView, probe: Probe, e: String)
    ensures
        verdict(slot, probe, Answer::Failed(e)) matches VerdictView::Fail(why) && text::ends(
            why,
            ": "@ + e@,
        ) && why.len() > e@.len() + 2,
{
    reveal_strlit("instantiating");
    reveal_strlit("health probe");
    reveal_strlit("describe");
    reveal_strlit("serve-asset");
    reveal_strlit("on-client-message");
    reveal_strlit(": ");
    let head = probe_word(probe);
    let why = head + ": "@ + e@;
    assert(why.subrange(head.len() as int, why.len() as int) =~= ": "@ + e@);
}

// --- whole builds -----------------------------------------------------------

/// A build after some events, each with how long the build had taken by then.
pub open spec fn build_after(run: BuildRunView, events: Seq<(BuildEvent, u64)>) -> BuildRunView
    decreases events.len(),
{
    if events.len() == 0 {
        run
    } else {
        build_stepped(
            build_after(run, events.drop_last()),
            events.last().0,
            events.last().1,
        ).0
    }
}

/// Whether each of some events is one that the build was waiting for.
pub open spec fn build_takes(run: BuildRunView, events: Seq<(BuildEvent, u64)>) -> bool
    decreases events.len(),
{
    events.len() > 0 ==> build_takes(run, events.drop_last()) && build_expects(
        build_after(run, events.drop_last()),
        events.last().0,
    )
}

/// What the last of some events made a build want.
pub open spec fn build_wants(
    run: BuildRunView,
    events: Seq<(BuildEvent, u64)>,
) -> BuildActionView {
    build_stepped(build_after(run, events.drop_last()), events.last().0, events.last().1).1
}

/// Whether a build that was compared is the one in service, byte for byte.
pub open spec fn in_service_already(event: BuildEvent) -> bool {
    event matches BuildEvent::Compared {
        fresh: Some(f),
        active: Some((revision, hash)),
        serving: Some(serving),
    } && f@ == hash@ && revision == serving
}

proof fn lemma_build_trail(
    slot: SlotView,
    origin: Origin,
    note: Seq<char>,
    events: Seq<(BuildEvent, u64)>,
)
    requires
        build_takes(fresh_build(slot, origin, note), events),
    ensures
        ({
            let run = build_after(fresh_build(slot, origin, note), events);
            let n = events.len();
            &&& run.slot == slot && run.origin == origin && run.note == note
            &&& run.stage is Waiting ==> n == 0
            &&& run.stage is Compiling ==> n == 1
            &&& run.stage is Comparing ==> n == 2
            &&& run.stage is Recording ==> n == 3
            &&& run.stage is Loading ==> n == 4
            &&& run.stage is Testing ==> n == 5
            &&& !(run.stage is Over) && n >= 1 ==> events[0].0 == (BuildEvent::Begun {
                granted: true,
            })
            &&& !(run.stage is Over) && n >= 2 ==> (events[1].0 matches BuildEvent::Compiled {
                success,
                stderr,
                artifact,
            } && success && artifact && run.stderr == stderr@)
            &&& !(run.stage is Over) && n >= 3 ==> events[2].0 is Compared && !in_service_already(
                events[2].0,
            )
            &&& !(run.stage is Over) && n >= 4 ==> (events[3].0 matches BuildEvent::Recorded {
                revision,
            } && run.revision == revision)
            &&& !(run.stage is Over) && n >= 5 ==> events[4].0 == (BuildEvent::Loaded {
                fault: None,
            })
        }),
    decreases events.len(),
{
    if events.len() > 0 {
        let rest = events.drop_last();
        lemma_build_trail(slot, origin, note, rest);
        assert forall|i: int| 0 <= i < rest.len() implies rest[i] == #[trigger] events[i] by {}
    }
}

/// A change goes live only if it went through every gate, each once and in order:
/// leave to build, a compiler that succeeded and left a component, a component that
/// is not the one in service already, a recorded revision, a component that loads,
/// and a smoke test that passed. What is then reported is the revision that was
/// recorded and what the compiler said.
pub proof fn law_a_change_goes_live_only_through_every_gate(
    slot: SlotView,
    origin: Origin,
    note: Seq<char>,
    events: Seq<(BuildEvent, u64)>,
)
    requires
        events.len() > 0,
        build_takes(fresh_build(slot, origin, note), events),
        build_wants(fresh_build(slot, origin, note), events) is GoLive,
    ensures
        events.len() == 6,
        events[0].0 == (BuildEvent::Begun { granted: true }),
        events[1].0 is Compiled && events[1].0->success && events[1].0->artifact,
        events[2].0 is Compared && !in_service_already(events[2].0),
        events[3].0 is Recorded,
        events[4].0 == (BuildEvent::Loaded { fault: None }),
        events[5].0 == (BuildEvent::Tested { fault: None }),
        build_wants(fresh_build(slot, origin, note), events) matches BuildActionView::GoLive(
            cause,
            o,
        ) && o.success && o.revision == Some(events[3].0->Recorded_revision) && o.stderr
            == events[1].0->stderr@ && o.slot == slot_key(slot) && o.duration_ms == events[5].1
            && o.detail.len() == 0 && o.pending_swap == (slot == SlotView::Agent)
            && text::begins(cause, origin_word(origin)) && text::ends(cause, ": "@ + note)
            && cause.len() == origin_word(origin).len() + 2 + note.len(),
{
    let rest = events.drop_last();
    lemma_build_trail(slot, origin, note, rest);
    assert forall|i: int| 0 <= i < rest.len() implies rest[i] == #[trigger] events[i] by {}
    reveal_strlit(": ");
    let cause = origin_word(origin) + ": "@ + note;
    assert(cause.subrange(0, origin_word(origin).len() as int) =~= origin_word(origin));
    assert(cause.subrange(origin_word(origin).len() as int, cause.len() as int) =~= ": "@ + note);
}

/// A change that goes through every gate goes live.
pub proof fn law_a_sound_change_goes_live(
    slot: SlotView,
    origin: Origin,
    note: Seq<char>,
    events: Seq<(BuildEvent, u64)>,
)
    requires
        events.len() == 6,
        events[0].0 == (BuildEvent::Begun { granted: true }),
        events[1].0 matches BuildEvent::Compiled { success, artifact, .. } && success && artifact,
        events[2].0 is Compared && !in_service_already(events[2].0),
        events[3].0 is Recorded,
        events[4].0 == (BuildEvent::Loaded { fault: None }),
        events[5].0 == (BuildEvent::Tested { fault: None }),
    ensures
        build_takes(fresh_build(slot, origin, note), events),
        build_wants(fresh_build(slot, origin, note), events) is GoLive,
{
    let run = fresh_build(slot, origin, note);
    reveal_with_fuel(build_after, 7);
    reveal_with_fuel(build_takes, 7);
    let e5 = events.drop_last();
    let e4 = e5.drop_last();
    let e3 = e4.drop_last();
    let e2 = e3.drop_last();
    let e1 = e2.drop_last();
    assert(e1.last() == events[0] && e2.last() == events[1] && e3.last() == events[2]);
    assert(e4.last() == events[3] && e5.last() == events[4]);
    assert(build_after(run, e1).stage is Compiling);
    assert(build_after(run, e2).stage is Comparing);
    assert(build_after(run, e3).stage is Recording);
    assert(build_after(run, e4).stage is Loading);
    assert(build_after(run, e5).stage is Testing);
}

/// What a build waits for is what it asked for: after each step the stage and the
/// request agree, and only a build that is over asks for an end.
pub proof fn law_a_build_waits_for_what_it_asked(
    run: BuildRunView,
    event: BuildEvent,
    elapsed_ms: u64,
)
    requires
        build_expects(run, event),
    ensures
        ({
            let (after, action) = build_stepped(run, event, elapsed_ms);
            match after.stage {
                Stage::Waiting => false,
                Stage::Compiling => action is Compile,
                Stage::Comparing => action is Compare,
                Stage::Recording => action is Record,
                Stage::Loading => action is Load,
                Stage::Testing => action is Test,
                Stage::Over => action is Reject || action is GoLive || action is Finish
                    || action is Fail,
            }
        }),
{
}

/// A gate that is not passed ends the build with a report that says which slot it
/// was, how long it took, what the compiler said and what went wrong: the fault that
/// was found is in it.
pub proof fn law_a_failed_gate_is_explained(
    run: BuildRunView,
    event: BuildEvent,
    elapsed_ms: u64,
)
    requires
        build_expects(run, event),
    ensures
        event matches BuildEvent::Compiled { success: false, stderr, .. } ==> (build_stepped(
            run,
            event,
            elapsed_ms,
        ).1 matches BuildActionView::Finish(o) && !o.success && o.stderr == stderr@ && o.slot
            == slot_key(run.slot) && o.duration_ms == elapsed_ms && o.detail.len() > 0),
        event matches BuildEvent::Compiled { success: true, artifact: false, .. }
            ==> build_stepped(run, event, elapsed_ms).1 is Fail,
        event matches BuildEvent::Loaded { fault: Some(e) } ==> (build_stepped(
            run,
            event,
            elapsed_ms,
        ).1 matches BuildActionView::Reject(o) && text::ends(o.detail, e@) && o.stderr
            == run.stderr && o.slot == slot_key(run.slot) && o.duration_ms == elapsed_ms
            && !o.success),
        event matches BuildEvent::Tested { fault: Some(e) } ==> (build_stepped(
            run,
            event,
            elapsed_ms,
        ).1 matches BuildActionView::Reject(o) && text::ends(o.detail, e@) && o.stderr
            == run.stderr && o.slot == slot_key(run.slot) && o.duration_ms == elapsed_ms
            && !o.success),
        event == (BuildEvent::Begun { granted: false }) ==> (build_stepped(
            run,
            event,
            elapsed_ms,
        ).1 matches BuildActionView::Finish(o) && !o.success && o.slot == slot_key(run.slot)
            && o.detail.len() > 0),
{
    reveal_strlit("compilation failed; the running revision is unchanged");
    reveal_strlit(
        "a build for this slot is already running; its result will cover this change too",
    );
    match event {
        BuildEvent::Loaded { fault: Some(e) } => {
            let head = "r"@ + decimal(run.revision as nat) + " is not a valid component: "@;
            let all = head + e@;
            assert(all.subrange(head.len() as int, all.len() as int) =~= e@);
        },
        BuildEvent::Tested { fault: Some(e) } => {
            let head = "r"@ + decimal(run.revision as nat)
                + " compiled but failed its smoke test: "@;
            let all = head + e@;
            assert(all.subrange(head.len() as int, all.len() as int) =~= e@);
        },
        _ => {},
    }
}

/// A build that changed nothing is not recorded again: the report names the
/// revision that is in service, and a build that is not in service is recorded.
pub proof fn law_what_is_in_service_is_not_recorded_again(
    run: BuildRunView,
    event: BuildEvent,
    elapsed_ms: u64,
)
    requires
        event is Compared,
    ensures
        in_service_already(event) ==> (build_stepped(
            run,
            event,
            elapsed_ms,
        ).1 matches BuildActionView::Finish(o) && o.success && o.revision
            == event->serving && o.stderr == run.stderr && !o.pending_swap && o.slot == slot_key(
            run.slot,
        )),
        !in_service_already(event) ==> build_stepped(run, event, elapsed_ms).1 is Record,
{
}

// --- whole rollbacks --------------------------------------------------------

/// A rollback after some events.
pub open spec fn rollback_after(
    run: RollbackRunView,
    events: Seq<RollbackEvent>,
) -> RollbackRunView
    decreases events.len(),
{
    if events.len() == 0 {
        run
    } else {
        rollback_stepped(rollback_after(run, events.drop_last()), events.last()).0
    }
}

/// Whether each of some events is one that the rollback was waiting for.
pub open spec fn rollback_takes(run: RollbackRunView, events: Seq<RollbackEvent>) -> bool
    decreases events.len(),
{
    events.len() > 0 ==> rollback_takes(run, events.drop_last()) && rollback_expects(
        rollback_after(run, events.drop_last()),
        events.last(),
    )
}

/// What the event at some place of a list made a rollback want.
pub open spec fn rollback_wants(
    run: RollbackRunView,
    events: Seq<RollbackEvent>,
    i: int,
) -> RollbackActionView {
    rollback_stepped(rollback_after(run, events.take(i)), events[i]).1
}

/// A rollback about to start.
pub open spec fn fresh_rollback(slot: SlotView) -> RollbackRunView {
    RollbackRunView { slot, revision: 0, stage: RollbackStage::Choosing }
}

proof fn lemma_rollback_trail(slot: SlotView, events: Seq<RollbackEvent>)
    requires
        rollback_takes(fresh_rollback(slot), events),
    ensures
        ({
            let run = rollback_after(fresh_rollback(slot), events);
            let n = events.len();
            &&& run.slot == slot
            &&& run.stage is Choosing ==> n == 0
            &&& run.stage is Loading ==> n == 1
            &&& run.stage is Testing ==> n == 2
            &&& run.stage is Muting ==> n == 3
            &&& run.stage is Restoring ==> n == 4
            &&& run.stage is Installing ==> n == 5
            &&& !(run.stage is Over) && n >= 1 ==> (events[0] matches RollbackEvent::Chosen {
                target: Ok(chosen),
            } && run.revision == chosen)
            &&& !(run.stage is Over) && n >= 2 ==> events[1] == (RollbackEvent::Loaded {
                fault: None,
            })
            &&& !(run.stage is Over) && n >= 3 ==> events[2] == (RollbackEvent::Tested {
                fault: None,
            })
            &&& !(run.stage is Over) && n >= 4 ==> events[3] is Muted
            &&& !(run.stage is Over) && n >= 5 ==> events[4] is Restored
        }),
    decreases events.len(),
{
    if events.len() > 0 {
        let rest = events.drop_last();
        lemma_rollback_trail(slot, rest);
        assert forall|i: int| 0 <= i < rest.len() implies rest[i] == #[trigger] events[i] by {}
    }
}

/// A rollback is entered in the book only once the revision that was chosen has been
/// loaded and tested, the watcher muted, the source put back and the component
/// installed, in that order; and it is that revision throughout.
pub proof fn law_a_rollback_is_entered_only_in_full(slot: SlotView, events: Seq<RollbackEvent>)
    requires
        events.len() > 0,
        rollback_takes(fresh_rollback(slot), events),
        rollback_wants(fresh_rollback(slot), events, events.len() - 1) is Enter,
    ensures
        events.len() == 6,
        events[1] == (RollbackEvent::Loaded { fault: None }),
        events[2] == (RollbackEvent::Tested { fault: None }),
        events[3] is Muted && events[4] is Restored && events[5] is Installed,
        events[0] matches RollbackEvent::Chosen { target: Ok(chosen) } && rollback_wants(
            fresh_rollback(slot),
            events,
            5,
        ) == RollbackActionView::Enter(chosen),
{
    let rest = events.drop_last();
    lemma_rollback_trail(slot, rest);
    assert(events.take(events.len() - 1) =~= rest);
    assert forall|i: int| 0 <= i < rest.len() implies rest[i] == #[trigger] events[i] by {}
}

/// A rollback to a revision that loads and passes its test loads that revision, tests
/// it, mutes the watcher, puts back the source of that revision, installs the
/// component and enters that revision in the book.
pub proof fn law_a_rollback_goes_to_what_was_chosen(slot: SlotView, chosen: u64)
    ensures
        ({
            let events = seq![
                RollbackEvent::Chosen { target: Ok(chosen) },
                RollbackEvent::Loaded { fault: None },
                RollbackEvent::Tested { fault: None },
                RollbackEvent::Muted,
                RollbackEvent::Restored,
                RollbackEvent::Installed,
            ];
            let run = fresh_rollback(slot);
            &&& rollback_takes(run, events)
            &&& rollback_wants(run, events, 0) == RollbackActionView::Load(chosen)
            &&& rollback_wants(run, events, 1) is Test
            &&& rollback_wants(run, events, 2) is Mute
            &&& rollback_wants(run, events, 3) == RollbackActionView::Restore(chosen)
            &&& rollback_wants(run, events, 4) is Install
            &&& rollback_wants(run, events, 5) == RollbackActionView::Enter(chosen)
        }),
{
    let events = seq![
        RollbackEvent::Chosen { target: Ok(chosen) },
        RollbackEvent::Loaded { fault: None },
        RollbackEvent::Tested { fault: None },
        RollbackEvent::Muted,
        RollbackEvent::Restored,
        RollbackEvent::Installed,
    ];
    reveal_with_fuel(rollback_after, 7);
    reveal_with_fuel(rollback_takes, 7);
    assert(events.take(5) =~= events.drop_last());
    assert(events.take(4) =~= events.take(5).drop_last());
    assert(events.take(3) =~= events.take(4).drop_last());
    assert(events.take(2) =~= events.take(3).drop_last());
    assert(events.take(1) =~= events.take(2).drop_last());
    assert(events.take(0) =~= events.take(1).drop_last());
    assert(events.take(1).last() == events[0] && events.take(2).last() == events[1]);
    assert(events.take(3).last() == events[2] && events.take(4).last() == events[3]);
    assert(events.take(5).last() == events[4]);
}

/// A rollback that cannot go on says why, and names the revision where there is one.
pub proof fn law_a_failed_rollback_is_explained(run: RollbackRunView, event: RollbackEvent)
    requires
        rollback_expects(run, event),
    ensures
        event matches RollbackEvent::Chosen { target: Err(e) } ==> rollback_stepped(run, event).1
            == RollbackActionView::Fail(e@),
        event matches RollbackEvent::Loaded { fault: Some(e) } ==> (rollback_stepped(
            run,
            event,
        ).1 matches RollbackActionView::Fail(why) && text::ends(why, e@) && text::occurs(
            why,
            decimal(run.revision as nat),
        ) && text::occurs(why, slot_key(run.slot))),
        event matches RollbackEvent::Tested { fault: Some(e) } ==> (rollback_stepped(
            run,
            event,
        ).1 matches RollbackActionView::Fail(why) && text::ends(why, e@) && text::occurs(
            why,
            decimal(run.revision as nat),
        ) && text::begins(why, slot_key(run.slot))),
{
    let key = slot_key(run.slot);
    let n = decimal(run.revision as nat);
    match event {
        RollbackEvent::Loaded { fault: Some(e) } => {
            let why = reload_text(key, run.revision, e@);
            let a = "reloading "@;
            let b = a + key + " r"@;
            let c = b + n + ": "@;
            assert(why.subrange(c.len() as int, why.len() as int) =~= e@);
            assert(why.subrange(b.len() as int, (b.len() + n.len()) as int) =~= n);
            assert(text::occurs_at(why, n, b.len() as int));
            assert(why.subrange(a.len() as int, (a.len() + key.len()) as int) =~= key);
            assert(text::occurs_at(why, key, a.len() as int));
        },
        RollbackEvent::Tested { fault: Some(e) } => {
            let why = retest_text(key, run.revision, e@);
            let b = key + " r"@;
            let c = b + n + " failed its smoke test: "@;
            assert(why.subrange(c.len() as int, why.len() as int) =~= e@);
            assert(why.subrange(b.len() as int, (b.len() + n.len()) as int) =~= n);
            assert(text::occurs_at(why, n, b.len() as int));
            assert(why.subrange(0, key.len() as int) =~= key);
        },
        _ => {},
    }
}

/// A rollback that names a revision goes to that revision and no other, and is
/// refused exactly where the history has none of that number. One that names none
/// goes to a revision that is not running, and to the most recent that is known to
/// have worked where there is one.
pub proof fn law_a_rollback_goes_where_it_was_told(
    key: Seq<char>,
    rows: Seq<RowView>,
    revision: Option<u64>,
)
    requires
        numbered(rows, key),
    ensures
        revision matches Some(n) ==> match rollback_choice(key, rows, revision) {
            Ok(row) => 1 <= n <= rows.len() && row == rows[n - 1] && row.revision == n,
            Err(_) => !(1 <= n <= rows.len()),
        },
        revision is None ==> match rollback_choice(key, rows, revision) {
            Ok(row) => !(row.status is Active) && (exists|i: int|
                0 <= i < rows.len() && #[trigger] rows[i] == row && (forall|j: int|
                    i < j < rows.len() ==> !((#[trigger] rows[j]).status is KnownGood))),
            Err(_) => forall|i: int|
                0 <= i < rows.len() ==> !((#[trigger] rows[i]).status is KnownGood),
        },
{
    match revision {
        Some(n) => {
            crate::revisions::lemma_numbered(rows, key, n);
            if 1 <= n <= rows.len() {
                assert(rows[n - 1].revision == n);
            }
        },
        None => {
            crate::revisions::law_the_fallback_is_the_most_recent_good_one(rows);
            crate::revisions::law_a_fallback_is_not_the_one_running(rows);
        },
    }
}

/// A rollback is entered as one more snapshot, which is taken after the target was
/// made active, and the histories of other slots are as they were.
pub proof fn law_a_rollback_is_on_record(
    book: BookView,
    shelf: Shelf,
    key: Seq<char>,
    revision: u64,
    now: u64,
    other: Seq<char>,
)
    requires
        book.rows.contains_key(key),
        other != key,
    ensures
        ({
            let after = rolled_back(book, shelf, key, revision, now);
            &&& after.history(other) == book.history(other)
            &&& after.history(key).len() == book.history(key).len()
            &&& after.snapshots.len() == book.snapshots.len() + 1
            &&& after.snapshots.drop_last() == book.snapshots
            &&& after.snapshots.last().created_ms == now
            &&& after.snapshots.last().slots == book.promoted(key, revision).running(shelf)
        }),
{
    let after = rolled_back(book, shelf, key, revision, now);
    assert(after.snapshots.drop_last() =~= book.snapshots);
}

/// Without an id, a rollback of the whole system undoes the last change: it goes to
/// the snapshot before the latest. With one it goes to that snapshot, or is refused
/// where there is none.
pub proof fn law_undoing_goes_one_snapshot_back(book: BookView, id: Option<u64>)
    requires
        book.ok(),
        book.snapshots.len() <= u64::MAX,
    ensures
        id is None && book.snapshots.len() >= 2 ==> system_choice(book.snapshots, id) == Ok::<
            u64,
            Seq<char>,
        >((book.snapshots.len() - 1) as u64),
        id is None && book.snapshots.len() < 2 ==> system_choice(book.snapshots, id) is Err,
        id matches Some(n) ==> match system_choice(book.snapshots, id) {
            Ok(m) => m == n && 1 <= n <= book.snapshots.len(),
            Err(_) => !(1 <= n <= book.snapshots.len()),
        },
{
    if book.snapshots.len() >= 2 {
        assert(book.snapshots[book.snapshots.len() - 2].id == book.snapshots.len() - 1);
    }
}

/// The plan that restores a snapshot rolls every slot in it back to the revision it
/// was running, and nothing else.
pub proof fn law_a_restore_covers_the_snapshot(
    keys: Seq<Seq<char>>,
    slots: Map<Seq<char>, u64>,
    slot: SlotView,
    revision: u64,
)
    requires
        slot::has_name(slot),
    ensures
        restore_plan(keys, slots).contains((slot, revision)) <==> keys.contains(slot_key(slot))
            && slots[slot_key(slot)] == revision,
    decreases keys.len(),
{
    let plan = restore_plan(keys, slots);
    if keys.len() > 0 {
        let rest = keys.drop_last();
        let last = keys[keys.len() - 1];
        let head = restore_plan(rest, slots);
        law_a_restore_covers_the_snapshot(rest, slots, slot, revision);
        slot::law_key_round_trip(slot);
        if slot::slot_named(last) is Some {
            slot::law_named_by_its_key(last);
        }
        if plan.contains((slot, revision)) {
            let k = choose|k: int| 0 <= k < plan.len() && plan[k] == (slot, revision);
            if k < head.len() {
                assert(head[k] == (slot, revision));
                let j = choose|j: int| 0 <= j < rest.len() && rest[j] == slot_key(slot);
                assert(keys[j] == slot_key(slot));
            } else {
                assert(keys[keys.len() - 1] == slot_key(slot));
            }
        }
        if keys.contains(slot_key(slot)) && slots[slot_key(slot)] == revision {
            let j = choose|j: int| 0 <= j < keys.len() && keys[j] == slot_key(slot);
            if j < rest.len() {
                assert(rest[j] == slot_key(slot));
                let k = choose|k: int| 0 <= k < head.len() && head[k] == (slot, revision);
                assert(plan[k] == (slot, revision));
            } else {
                assert(plan[head.len() as int] == (slot, revision));
            }
        }
    }
}

/// What is said of a system restore lists each rollback once: as done where it
/// worked, as failed where it did not, in the order they were tried.
pub proof fn law_every_restored_slot_is_reported(items: Seq<Restored>, i: int)
    requires
        0 <= i < items.len(),
    ensures
        restored_lines(items).len() + failed_lines(items).len() == items.len(),
        items[i].fault is None ==> exists|k: int|
            0 <= k < restored_lines(items).len() && text::begins(
                #[trigger] restored_lines(items)[k],
                items[i].slot@,
            ) && text::ends(restored_lines(items)[k], decimal(items[i].revision as nat)),
        items[i].fault matches Some(e) ==> exists|k: int|
            0 <= k < failed_lines(items).len() && text::begins(
                #[trigger] failed_lines(items)[k],
                items[i].slot@,
            ) && text::ends(failed_lines(items)[k], e@),
    decreases items.len(),
{
    let rest = items.drop_last();
    let last = items[items.len() - 1];
    if rest.len() > 0 {
        law_every_restored_slot_is_reported(
            rest,
            if i < rest.len() {
                i
            } else {
                0
            },
        );
    } else {
        assert(restored_lines(rest).len() == 0 && failed_lines(rest).len() == 0);
    }
    let good = restored_lines(items);
    let bad = failed_lines(items);
    if i < rest.len() {
        assert(rest[i] == items[i]);
        if items[i].fault is None {
            let k = choose|k: int|
                0 <= k < restored_lines(rest).len() && text::begins(
                    #[trigger] restored_lines(rest)[k],
                    items[i].slot@,
                ) && text::ends(restored_lines(rest)[k], decimal(items[i].revision as nat));
            assert(good[k] == restored_lines(rest)[k]);
        } else {
            let e = items[i].fault->0;
            let k = choose|k: int|
                0 <= k < failed_lines(rest).len() && text::begins(
                    #[trigger] failed_lines(rest)[k],
                    items[i].slot@,
                ) && text::ends(failed_lines(rest)[k], e@);
            assert(bad[k] == failed_lines(rest)[k]);
        }
    } else if last.fault is None {
        let line = good[good.len() - 1];
        let tail = decimal(last.revision as nat);
        assert(line.subrange(0, last.slot@.len() as int) =~= last.slot@);
        assert(line.subrange(line.len() - tail.len(), line.len() as int) =~= tail);
        assert(text::begins(good[good.len() - 1], items[i].slot@));
    } else {
        let line = bad[bad.len() - 1];
        let tail = last.fault->0@;
        assert(line.subrange(0, last.slot@.len() as int) =~= last.slot@);
        assert(line.subrange(line.len() - tail.len(), line.len() as int) =~= tail);
        assert(text::begins(bad[bad.len() - 1], items[i].slot@));
    }
}

/// What is told of a rollback names the slot, the revision it went back to and the one
/// it came from; what is told of a system restore gives the snapshot and a line for
/// every slot, and calls it whole only where every slot came back.
pub proof fn law_a_rollback_is_told_whole(
    key: Seq<char>,
    revision: u64,
    from: u64,
    id: u64,
    items: Seq<Restored>,
    k: int,
)
    ensures
        rollback_text(key, revision, None) == key + " rolled back to r"@ + zero_padded(
            revision as nat,
            4,
        ),
        text::begins(rollback_text(key, revision, Some(from)), rollback_text(key, revision, None)),
        text::occurs(rollback_text(key, revision, Some(from)), "r"@ + zero_padded(from as nat, 4)),
        text::occurs(restore_text(id, items), decimal(id as nat)),
        text::begins(restore_text(id, items), "system restored"@) <==> failed_lines(items).len()
            == 0,
        0 <= k < restored_lines(items).len() ==> text::occurs(
            restore_text(id, items),
            restored_lines(items)[k],
        ),
        0 <= k < failed_lines(items).len() ==> text::occurs(
            restore_text(id, items),
            failed_lines(items)[k],
        ),
{
    let base = key + " rolled back to r"@ + zero_padded(revision as nat, 4);
    assert(base + Seq::<char>::empty() =~= base);
    let r = zero_padded(from as nat, 4);
    let tail = " (from r"@ + r + ")"@;
    text::lemma_more_follows(base, base, tail);
    reveal_strlit(" (from r");
    reveal_strlit("r");
    let front = " (from "@;
    reveal_strlit(" (from ");
    assert(" (from r"@ =~= front + "r"@);
    text::lemma_occurs_between(front, "r"@ + r, ")"@);
    assert(tail =~= front + ("r"@ + r) + ")"@);
    text::lemma_occurs_within(base, tail, Seq::empty(), "r"@ + r);
    assert(base + tail + Seq::<char>::empty() =~= base + tail);
    lemma_restore_text(id, items, k);
}

proof fn lemma_restore_text(id: u64, items: Seq<Restored>, k: int)
    ensures
        text::occurs(restore_text(id, items), decimal(id as nat)),
        text::begins(restore_text(id, items), "system restored"@) <==> failed_lines(items).len()
            == 0,
        0 <= k < restored_lines(items).len() ==> text::occurs(
            restore_text(id, items),
            restored_lines(items)[k],
        ),
        0 <= k < failed_lines(items).len() ==> text::occurs(
            restore_text(id, items),
            failed_lines(items)[k],
        ),
{
    let n = decimal(id as nat);
    let good = joined(restored_lines(items), ", "@);
    let bad = joined(failed_lines(items), "; "@);
    let whole = "system restored to snapshot "@;
    let part = "system partially restored to snapshot "@;
    let head = if failed_lines(items).len() == 0 {
        whole
    } else {
        part
    };
    let a = head + n;
    let b = a + ": "@;
    let c = b + good;
    let d = c + " restored; failures: "@;
    let all = restore_text(id, items);
    text::lemma_at_the_end(head, n);
    text::lemma_more_follows(a, n, ": "@);
    text::lemma_more_follows(b, n, good);
    text::lemma_more_follows(c, n, " restored; failures: "@);
    text::lemma_more_follows(d, n, bad);
    if 0 <= k < restored_lines(items).len() {
        let line = restored_lines(items)[k];
        text::law_joining_loses_nothing(restored_lines(items), ", "@, k);
        text::lemma_occurs_within(b, good, Seq::empty(), line);
        assert(b + good + Seq::<char>::empty() =~= c);
        text::lemma_more_follows(c, line, " restored; failures: "@);
        text::lemma_more_follows(d, line, bad);
    }
    if 0 <= k < failed_lines(items).len() {
        let line = failed_lines(items)[k];
        text::law_joining_loses_nothing(failed_lines(items), "; "@, k);
        text::lemma_occurs_within(d, bad, Seq::empty(), line);
        assert(d + bad + Seq::<char>::empty() =~= d + bad);
    }
    reveal_strlit("system restored to snapshot ");
    reveal_strlit("system partially restored to snapshot ");
    reveal_strlit("system restored");
    let word = "system restored"@;
    assert(word.len() == 15 && word[7] == 'r');
    if failed_lines(items).len() == 0 {
        assert(all.subrange(0, 15) =~= word);
    } else {
        assert(all[7] == part[7] && part[7] == 'p');
        if text::begins(all, word) {
            assert(all.subrange(0, 15)[7] == word[7]);
        }
    }
}

/// What came of a rollback is kept under the slot and the revision it was of, with the
/// fault exactly where there was one.
pub proof fn law_what_came_of_it_is_kept(step: (SlotView, u64), result: Result<String, String>)
    ensures
        came_of(step, result).slot == slot_key(step.0),
        came_of(step, result).revision == step.1,
        came_of(step, result).fault is None <==> result is Ok,
        result matches Err(e) ==> came_of(step, result).fault == Some(e@),
{
}

/// A tool's own words decide whether it is taken: its name must be its slot's and its
/// schema a document; why it is not taken is said.
pub proof fn law_a_manifest_is_taken_only_for_its_slot(
    slot_name: Seq<char>,
    name: Seq<char>,
    schema: Result<JsonView, Seq<char>>,
)
    ensures
        manifest_verdict(slot_name, name, schema) is Pass <==> trimmed(name).len() > 0 && name
            == slot_name && schema is Ok,
        !(manifest_verdict(slot_name, name, schema) is Ask),
        trimmed(name).len() > 0 && name != slot_name ==> (manifest_verdict(
            slot_name,
            name,
            schema,
        ) matches VerdictView::Fail(e) && text::occurs(e, name) && text::occurs(e, slot_name)),
        trimmed(name).len() > 0 && name == slot_name ==> (schema matches Err(e) ==> (manifest_verdict(
            slot_name,
            name,
            schema,
        ) matches VerdictView::Fail(why) && text::ends(why, e))),
{
    let a = "tool manifest says '"@ + name;
    let b = a + "' but the slot is '"@;
    text::lemma_at_the_end("tool manifest says '"@, name);
    text::lemma_more_follows(a, name, "' but the slot is '"@);
    text::lemma_more_follows(b, name, slot_name);
    text::lemma_more_follows(b + slot_name, name, "'"@);
    text::lemma_at_the_end(b, slot_name);
    text::lemma_more_follows(b + slot_name, slot_name, "'"@);
    if let Err(e) = schema {
        text::lemma_at_the_end("argument schema is not valid JSON: "@, e);
    }
}

} // verus!
