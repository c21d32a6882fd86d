//! What the host decides for each import of a guest.
//!
//! Each call is scoped to the session it was made for, and what is handed back
//! is capped in size.
use vstd::prelude::*;

use crate::admin::{list_slots, slots_line};
use crate::config::{find_mode, mode_views, Config, ModeSpec, ModeView, ModelSpec};
use crate::pipeline;
use crate::pipeline::system_choice;
use crate::revisions::{
    origin_word, row_views, slot_views, status_word, RevisionRow, Revisions, RowView,
    SystemSnapshot,
};
use crate::runtime::{Budget, BudgetView};
use crate::skills;
use crate::skills::Skill;
use crate::slot::{slot_key, Slot, SlotView};
use crate::text;
use crate::text::{byte_len, decimal, number, outcome_of, str_of, text_of};
use crate::types::{
    ExecResult, InboxItem, LlmError, ModTarget, ModTargetView, ModeInfo, ModelInfo,
    RevisionInfo, RollbackTarget, RollbackTargetView, SessionMeta,
};

verus! {

// --- scope ------------------------------------------------------------------

/// Why a session is out of a call's scope, if it is. A call without a session
/// of its own is a gateway's: managing every session is its job.
pub open spec fn scope_fault(mine: Option<Seq<char>>, session: Seq<char>) -> Option<Seq<char>> {
    match mine {
        Some(own) => if own != session {
            Some(
                "session "@ + session + " is out of scope for this call (scoped to "@ + own
                    + ")"@,
            )
        } else {
            None
        },
        None => None,
    }
}

/// Whether a check passed, as text.
pub open spec fn fault_of(r: Result<(), String>) -> Option<Seq<char>> {
    match r {
        Ok(_) => None,
        Err(e) => Some(e@),
    }
}

/// Rejects attempts to touch a session other than the one a call is for.
pub fn scope_ok(mine: Option<&str>, session_id: &str) -> (r: Result<(), String>)
    ensures
        fault_of(r) == scope_fault(str_of(mine), session_id@),
{
    match mine {
        Some(own) => if !text::same(own, session_id) {
            Err(
                "session ".to_owned().concat(session_id).concat(
                    " is out of scope for this call (scoped to ",
                ).concat(own).concat(")"),
            )
        } else {
            Ok(())
        },
        None => Ok(()),
    }
}

/// A call made for one session reaches no other.
pub proof fn law_a_call_reaches_only_its_session(own: Seq<char>, session: Seq<char>)
    ensures
        scope_fault(Some(own), session) is None <==> session == own,
{
}

// --- sys --------------------------------------------------------------------

/// How many characters of a guest's log line are kept.
pub const LOG_CHARS: usize = 4096;

/// The beginning of a log line.
pub open spec fn log_line(s: Seq<char>) -> Seq<char> {
    if s.len() > LOG_CHARS {
        s.take(LOG_CHARS as int)
    } else {
        s
    }
}

/// The beginning of a log line.
pub fn log_text(msg: String) -> (r: String)
    ensures
        r@ == log_line(msg@),
{
    let chars = text::chars_of(msg.as_str());
    if chars.len() > LOG_CHARS {
        assert(chars@.take(LOG_CHARS as int) =~= chars@.subrange(0, LOG_CHARS as int));
        text::slice_of(&chars, 0, LOG_CHARS)
    } else {
        msg
    }
}

/// How large a note may be.
pub const KV_MAX_BYTES: usize = 1048576;

/// Why a scope of notes is refused, if it is. One scope belongs to everyone.
pub open spec fn notes_fault(mine: Option<Seq<char>>, scope: Seq<char>) -> Option<Seq<char>> {
    if scope == "global"@ {
        None
    } else {
        scope_fault(mine, scope)
    }
}

/// Whether notes may be read.
pub fn check_kv_get(mine: Option<&str>, scope: &str) -> (r: Result<(), String>)
    ensures
        fault_of(r) == notes_fault(str_of(mine), scope@),
{
    if text::same(scope, "global") {
        Ok(())
    } else {
        scope_ok(mine, scope)
    }
}

/// Whether a note may be written.
pub fn check_kv_put(mine: Option<&str>, scope: &str, value: &str) -> (r: Result<(), String>)
    ensures
        fault_of(r) == match notes_fault(str_of(mine), scope@) {
            Some(e) => Some(e),
            None => if byte_len(value@) > KV_MAX_BYTES {
                Some("kv value exceeds 1 MiB"@)
            } else {
                None
            },
        },
{
    match check_kv_get(mine, scope) {
        Err(e) => Err(e),
        Ok(_) => if text::bytes_in(value) > KV_MAX_BYTES {
            Err("kv value exceeds 1 MiB".to_owned())
        } else {
            Ok(())
        },
    }
}

/// The word for a truth value.
pub open spec fn bool_word(b: bool) -> Seq<char> {
    if b {
        "true"@
    } else {
        "false"@
    }
}

fn bool_text(b: bool) -> (r: String)
    ensures
        r@ == bool_word(b),
{
    if b {
        "true".to_owned()
    } else {
        "false".to_owned()
    }
}

/// The configuration a guest may read. Secrets are deliberately unreachable:
/// the key never crosses this boundary.
pub open spec fn config_value(cfg: Config, key: Seq<char>) -> Option<Seq<char>> {
    if key == "model"@ {
        Some(cfg.model@)
    } else if key == "system_prompt"@ {
        Some(cfg.system_prompt@)
    } else if key == "max_iterations"@ {
        Some(decimal(cfg.max_iterations as nat))
    } else if key == "max_tool_output_bytes"@ {
        Some(decimal(cfg.max_tool_output_bytes as nat))
    } else if key == "sandbox_available"@ {
        Some(bool_word(cfg.sandbox_available))
    } else if key == "devkit_available"@ {
        Some(bool_word(cfg.devkit.enabled))
    } else {
        None
    }
}

/// The configuration a guest may read.
pub fn config_get(cfg: &Config, key: &str) -> (r: Option<String>)
    ensures
        text_of(r) == config_value(*cfg, key@),
{
    if text::same(key, "model") {
        Some(cfg.model.clone())
    } else if text::same(key, "system_prompt") {
        Some(cfg.system_prompt.clone())
    } else if text::same(key, "max_iterations") {
        Some(number(cfg.max_iterations as u64))
    } else if text::same(key, "max_tool_output_bytes") {
        Some(number(cfg.max_tool_output_bytes as u64))
    } else if text::same(key, "sandbox_available") {
        Some(bool_text(cfg.sandbox_available))
    } else if text::same(key, "devkit_available") {
        Some(bool_text(cfg.devkit.enabled))
    } else {
        None
    }
}

/// Whatever a guest asks for, the answer does not depend on the key: two
/// configurations that differ in nothing else answer alike.
pub proof fn law_the_key_is_unreachable(a: Config, b: Config, key: Seq<char>)
    requires
        a == (Config { openrouter_api_key: a.openrouter_api_key, ..b }),
    ensures
        config_value(a, key) == config_value(b, key),
{
}

/// Models as the picker lists them.
pub open spec fn model_infos(items: Seq<ModelInfo>) -> Seq<(Seq<char>, Seq<char>)> {
    items.map_values(|m: ModelInfo| (m.id@, m.label@))
}

/// The models on offer.
pub fn list_models(cfg: &Config) -> (r: Vec<ModelInfo>)
    ensures
        model_infos(r@) == cfg.models@.map_values(|m: ModelSpec| (m.id@, m.label@)),
{
    let ghost all = cfg.models@.map_values(|m: ModelSpec| (m.id@, m.label@));
    let mut out: Vec<ModelInfo> = Vec::new();
    assert(model_infos(out@) =~= all.take(0));
    for i in 0..cfg.models.len()
        invariant
            all == cfg.models@.map_values(|m: ModelSpec| (m.id@, m.label@)),
            model_infos(out@) == all.take(i as int),
    {
        let ghost had = out@;
        let m = &cfg.models[i];
        out.push(ModelInfo { id: m.id.clone(), label: m.label.clone() });
        proof {
            assert(model_infos(out@) =~= model_infos(had).push(all[i as int]));
            assert(all.take(i + 1) =~= all.take(i as int).push(all[i as int]));
        }
    }
    assert(all.take(cfg.models@.len() as int) =~= all);
    out
}

/// What a mode says to a guest.
pub open spec fn mode_info(m: ModeInfo) -> (ModeView, Seq<char>) {
    (
        ModeView {
            id: m.id@,
            label: m.label@,
            description: m.description@,
            read_only: m.read_only,
        },
        m.prompt@,
    )
}

/// What each mode of a list says to a guest.
pub open spec fn mode_infos(items: Seq<ModeInfo>) -> Seq<(ModeView, Seq<char>)> {
    items.map_values(|m: ModeInfo| mode_info(m))
}

/// The modes on offer. None adds to the prompt.
pub fn list_modes(cfg: &Config) -> (r: Vec<ModeInfo>)
    ensures
        mode_infos(r@) == cfg.modes@.map_values(|m: ModeSpec| (m@, ""@)),
{
    let ghost all = cfg.modes@.map_values(|m: ModeSpec| (m@, ""@));
    let mut out: Vec<ModeInfo> = Vec::new();
    assert(mode_infos(out@) =~= all.take(0));
    for i in 0..cfg.modes.len()
        invariant
            all == cfg.modes@.map_values(|m: ModeSpec| (m@, ""@)),
            mode_infos(out@) == all.take(i as int),
    {
        let ghost had = out@;
        let m = &cfg.modes[i];
        let info = ModeInfo {
            id: m.id.clone(),
            label: m.label.clone(),
            description: m.description.clone(),
            read_only: m.read_only,
            prompt: "".to_owned(),
        };
        out.push(info);
        proof {
            assert(mode_info(info) == all[i as int]);
            assert(mode_infos(out@) =~= mode_infos(had).push(all[i as int]));
            assert(all.take(i + 1) =~= all.take(i as int).push(all[i as int]));
        }
    }
    assert(all.take(cfg.modes@.len() as int) =~= all);
    out
}

// --- sessions ---------------------------------------------------------------

/// Whether a model is on offer.
pub open spec fn offers_model(models: Seq<ModelSpec>, id: Seq<char>) -> bool {
    exists|i: int| 0 <= i < models.len() && (#[trigger] models[i]).id@ == id
}

fn has_model(models: &Vec<ModelSpec>, id: &str) -> (r: bool)
    ensures
        r == offers_model(models@, id@),
{
    for i in 0..models.len()
        invariant
            forall|j: int| 0 <= j < i ==> (#[trigger] models@[j]).id@ != id@,
    {
        if text::same(models[i].id.as_str(), id) {
            assert(models@[i as int].id@ == id@);
            return true;
        }
    }
    false
}

/// The model a session really uses: its own where that is still on offer, and
/// none of its own otherwise.
pub open spec fn effective_model(models: Seq<ModelSpec>, model: Seq<char>) -> Seq<char> {
    if offers_model(models, model) {
        model
    } else {
        Seq::empty()
    }
}

/// Blanks a session's model when that model is no longer offered.
///
/// A conversation pinned to a model that has since been removed from the
/// catalogue would otherwise keep sending an id the provider rejects. The
/// stored value is left alone; reporting it as unset means both the agent and
/// the chat surface see what will actually be used.
pub fn drop_unavailable_model(cfg: &Config, meta: &mut SessionMeta)
    ensures
        final(meta).id@ == old(meta).id@,
        final(meta).title@ == old(meta).title@,
        final(meta).mode@ == old(meta).mode@,
        final(meta).model@ == if old(meta).model@.len() == 0 {
            Seq::empty()
        } else {
            effective_model(cfg.models@, old(meta).model@)
        },
{
    if text::is_empty(meta.model.as_str()) {
        return;
    }
    if !has_model(&cfg.models, meta.model.as_str()) {
        meta.model = String::new();
    }
}

/// Whether a session may be put in a mode. Only offered modes are accepted, so
/// a guest cannot invent one the agent has no handling for.
pub fn check_mode(cfg: &Config, mode: &str) -> (r: Result<(), String>)
    ensures
        fault_of(r) == if find_mode(mode_views(cfg.modes@), mode@) is Some {
            None
        } else {
            Some("unknown mode: "@ + mode@)
        },
{
    match cfg.mode(mode) {
        Some(_) => Ok(()),
        None => Err("unknown mode: ".to_owned().concat(mode)),
    }
}

/// Whether a session may be given a model; an empty one takes its own away.
pub fn check_model(cfg: &Config, model: &str) -> (r: Result<(), String>)
    ensures
        fault_of(r) == if model@.len() == 0 || offers_model(cfg.models@, model@) {
            None
        } else {
            Some("unknown model: "@ + model@)
        },
{
    if text::is_empty(model) || has_model(&cfg.models, model) {
        Ok(())
    } else {
        Err("unknown model: ".to_owned().concat(model))
    }
}

/// What a guest asks about one session.
#[derive(Debug, PartialEq, Eq)]
pub enum SessionCall {
    /// What is known of it.
    Get,
    /// Its log.
    Events,
    /// One more event in its log.
    Append,
    /// Text shown while it is being written.
    EmitOutput,
    /// What arrived for it.
    PollInbox,
    /// Another title.
    Rename,
    /// That it is put away, or taken out again.
    Archive,
    /// A message to it.
    Submit,
    /// Another mode.
    SetMode(String),
    /// Another model.
    SetModel(String),
    /// The skills on offer.
    ListSkills,
    /// That a skill is attached, or taken off.
    SetSkill,
    /// The tools it would be offered.
    AvailableTools,
}

/// Why a call about a session is refused, if it is. Whatever it asks, it is
/// refused where the session is not its own.
pub open spec fn session_fault(
    cfg: Config,
    mine: Option<Seq<char>>,
    session: Seq<char>,
    call: SessionCall,
) -> Option<Seq<char>> {
    match scope_fault(mine, session) {
        Some(e) => Some(e),
        None => match call {
            SessionCall::SetMode(mode) => if find_mode(mode_views(cfg.modes@), mode@) is Some {
                None
            } else {
                Some("unknown mode: "@ + mode@)
            },
            SessionCall::SetModel(model) => if model@.len() == 0 || offers_model(
                cfg.models@,
                model@,
            ) {
                None
            } else {
                Some("unknown model: "@ + model@)
            },
            _ => None,
        },
    }
}

/// Whether a call about a session goes ahead.
pub fn check_session_call(
    cfg: &Config,
    mine: Option<&str>,
    session_id: &str,
    call: &SessionCall,
) -> (r: Result<(), String>)
    ensures
        fault_of(r) == session_fault(*cfg, str_of(mine), session_id@, *call),
{
    match scope_ok(mine, session_id) {
        Err(e) => Err(e),
        Ok(_) => match call {
            SessionCall::SetMode(mode) => check_mode(cfg, mode.as_str()),
            SessionCall::SetModel(model) => check_model(cfg, model.as_str()),
            _ => Ok(()),
        },
    }
}

/// A call made for one session can ask nothing about another, whatever it asks.
pub proof fn law_every_session_call_is_scoped(
    cfg: Config,
    own: Seq<char>,
    session: Seq<char>,
    call: SessionCall,
)
    requires
        session != own,
    ensures
        session_fault(cfg, Some(own), session, call) is Some,
{
}

/// A model that may be set is the one that is then used.
pub proof fn law_an_accepted_model_is_used(models: Seq<ModelSpec>, model: Seq<char>)
    requires
        offers_model(models, model),
    ensures
        effective_model(models, model) == model,
{
}

/// What is stored once a skill has been attached or taken off. Only a skill that
/// exists may be, so a stale id cannot leave an entry the panel can never
/// clear.
pub fn set_skill_enabled(
    known: &Vec<Skill>,
    raw: Option<&str>,
    skill_id: &str,
    enabled: bool,
) -> (r: Result<String, String>)
    ensures
        outcome_of(r) == if skills::has_skill(known@, skill_id@) {
            Ok(skills::stored(str_of(raw), skill_id@, enabled))
        } else {
            Err("unknown skill: "@ + skill_id@)
        },
{
    if !skills::is_known(known, skill_id) {
        return Err("unknown skill: ".to_owned().concat(skill_id));
    }
    Ok(skills::set_enabled(raw, skill_id, enabled))
}

/// Whether the user wants the turn to stop.
pub open spec fn cancels(items: Seq<InboxItem>) -> bool {
    exists|i: int| 0 <= i < items.len() && (#[trigger] items[i] is Cancel)
}

/// Notes in a budget what arrived for its session. A cancel request must also
/// stop the guest even if it ignores the item.
pub fn arm(budget: &mut Budget, items: &Vec<InboxItem>)
    ensures
        final(budget)@ == (BudgetView {
            cancelled: old(budget)@.cancelled || cancels(items@),
            ..old(budget)@
        }),
        final(budget).started == old(budget).started,
{
    for i in 0..items.len()
        invariant
            budget@ == old(budget)@,
            budget.started == old(budget).started,
            forall|j: int| 0 <= j < i ==> !(#[trigger] items@[j] is Cancel),
    {
        if let InboxItem::Cancel = &items[i] {
            assert(items@[i as int] is Cancel);
            budget.cancelled = true;
            return;
        }
    }
}

// --- completions ------------------------------------------------------------

/// The completions a call has open. Ids are handed out once.
pub struct Streams<H> {
    open: std::collections::HashMap<u64, H>,
    next: u64,
}

impl<H> Streams<H> {
    /// The completions that are open.
    pub closed spec fn held(self) -> Map<u64, H> {
        self.open@
    }

    /// The next id.
    pub closed spec fn next(self) -> u64 {
        self.next
    }

    #[verifier::type_invariant]
    spec fn well_formed(self) -> bool {
        forall|id: u64| #[trigger] self.open@.contains_key(id) ==> id < self.next
    }

    /// Nothing is open.
    pub fn new() -> (r: Streams<H>)
        ensures
            r.held() == Map::<u64, H>::empty(),
            r.next() == 1,
    {
        Streams { open: std::collections::HashMap::new(), next: 1 }
    }

    /// Holds one more completion, under an id no other has had.
    pub fn open(&mut self, handle: H) -> (id: u64)
        requires
            old(self).next() < u64::MAX,
        ensures
            id == old(self).next(),
            !old(self).held().contains_key(id),
            final(self).held() == old(self).held().insert(id, handle),
            final(self).next() == id + 1,
    {
        broadcast use vstd::std_specs::hash::group_hash_axioms;

        proof {
            use_type_invariant(&*self);
        }
        let id: u64 = self.next;
        let mut table: std::collections::HashMap<u64, H> = std::collections::HashMap::new();
        std::mem::swap(&mut table, &mut self.open);
        let _ = table.insert(id, handle);
        self.next = id + 1;
        self.open = table;
        id
    }

    /// Takes a completion out to wait for what comes next.
    pub fn take(&mut self, id: u64) -> (r: Result<H, LlmError>)
        ensures
            match r {
                Ok(handle) => old(self).held().contains_key(id) && handle == old(self).held()[id],
                Err(e) => !old(self).held().contains_key(id) && (e matches LlmError::BadRequest(m)
                    && m@ == "unknown stream id "@ + decimal(id as nat)),
            },
            final(self).held() == old(self).held().remove(id),
            final(self).next() == old(self).next(),
    {
        broadcast use vstd::std_specs::hash::group_hash_axioms;

        proof {
            use_type_invariant(&*self);
        }
        let mut table: std::collections::HashMap<u64, H> = std::collections::HashMap::new();
        std::mem::swap(&mut table, &mut self.open);
        let found = table.remove(&id);
        assert(table@ =~= old(self).open@.remove(id));
        self.open = table;
        match found {
            Some(handle) => Ok(handle),
            None => Err(
                LlmError::BadRequest("unknown stream id ".to_owned().concat(number(id).as_str())),
            ),
        }
    }

    /// Puts a completion back under its id.
    pub fn put_back(&mut self, id: u64, handle: H)
        requires
            id < old(self).next(),
        ensures
            final(self).held() == old(self).held().insert(id, handle),
            final(self).next() == old(self).next(),
    {
        broadcast use vstd::std_specs::hash::group_hash_axioms;

        proof {
            use_type_invariant(&*self);
        }
        let mut table: std::collections::HashMap<u64, H> = std::collections::HashMap::new();
        std::mem::swap(&mut table, &mut self.open);
        let _ = table.insert(id, handle);
        self.open = table;
    }

    /// Closes a completion.
    pub fn close(&mut self, id: u64)
        ensures
            final(self).held() == old(self).held().remove(id),
            final(self).next() == old(self).next(),
    {
        let _ = self.take(id);
    }
}

// --- code execution ---------------------------------------------------------

/// Why no code can be run.
pub const SANDBOX_UNAVAILABLE: &'static str =
    "the docker exec sandbox is not configured; code execution is unavailable";

/// What running code comes to without a sandbox.
pub fn no_sandbox() -> (r: ExecResult)
    ensures
        r.exit_code == -1,
        r.stdout@ == Seq::<char>::empty(),
        r.stderr@ == SANDBOX_UNAVAILABLE@,
        !r.timed_out,
        !r.truncated,
{
    ExecResult {
        exit_code: -1,
        stdout: String::new(),
        stderr: SANDBOX_UNAVAILABLE.to_owned(),
        timed_out: false,
        truncated: false,
    }
}

/// The message for a tool that no server provides.
pub fn no_mcp_server(name: &str) -> (r: String)
    ensures
        r@ == "no mcp server provides "@ + name@,
{
    "no mcp server provides ".to_owned().concat(name)
}

// --- self-modification ------------------------------------------------------

/// The slots that are swapped when a call ends, once a change was made.
/// Self-modification never yanks a running instance.
pub open spec fn pending_after(pending: Seq<SlotView>, target: ModTargetView) -> Seq<SlotView> {
    if target is AgentSelf && !pending.contains(SlotView::Agent) {
        pending.push(SlotView::Agent)
    } else {
        pending
    }
}

/// Notes that a call changed a component, so the caller can tell the model when
/// the change takes effect.
pub fn note_pending_swap(pending: &mut Vec<Slot>, target: &ModTarget)
    ensures
        slot_views(final(pending)@) == pending_after(slot_views(old(pending)@), target@),
{
    let ghost was = slot_views(pending@);
    if let ModTarget::AgentSelf = target {
        for i in 0..pending.len()
            invariant
                slot_views(pending@) == was,
                forall|j: int| 0 <= j < i ==> was[j] != SlotView::Agent,
        {
            assert(was[i as int] == pending@[i as int]@);
            if pending[i].is(&Slot::Agent) {
                assert(was.contains(SlotView::Agent));
                return;
            }
        }
        let ghost had = pending@;
        pending.push(Slot::Agent);
        assert(slot_views(pending@) =~= slot_views(had).push(SlotView::Agent));
        assert(!was.contains(SlotView::Agent));
    }
}

/// The slot a rollback is about, unless it is about everything.
pub open spec fn slot_of_target(target: RollbackTargetView) -> Option<SlotView> {
    match target {
        RollbackTargetView::AgentSelf => Some(SlotView::Agent),
        RollbackTargetView::Tool(n) => Some(SlotView::Tool(n)),
        RollbackTargetView::Gateway(n) => Some(SlotView::Gateway(n)),
        RollbackTargetView::WholeSystem => None,
    }
}

/// The slot a rollback is about, unless it is about everything.
pub fn target_slot(target: &RollbackTarget) -> (r: Option<Slot>)
    ensures
        match r {
            Some(slot) => slot_of_target(target@) == Some(slot@),
            None => slot_of_target(target@) is None,
        },
{
    match target {
        RollbackTarget::AgentSelf => Some(Slot::Agent),
        RollbackTarget::Tool(n) => Some(Slot::tool(n.as_str())),
        RollbackTarget::Gateway(n) => Some(Slot::gateway(n.as_str())),
        RollbackTarget::WholeSystem => None,
    }
}

/// What a rollback goes back to.
#[derive(Debug, PartialEq, Eq)]
pub enum Rollback {
    /// A revision of a slot, or its latest good one.
    Slot(Slot, Option<u64>),
    /// A snapshot of everything.
    System(u64),
    /// Nothing, and why.
    Refused(String),
}

/// Decides what a rollback goes back to. Without an id, the most recent
/// snapshot before the current one is what undoing the last change means.
pub fn plan_rollback(book: &Revisions, target: &RollbackTarget, revision: Option<u64>) -> (r:
    Rollback)
    ensures
        match r {
            Rollback::Slot(slot, rev) => slot_of_target(target@) == Some(slot@) && rev == revision,
            Rollback::System(id) => target@ is WholeSystem && system_choice(
                book@.snapshots,
                revision,
            ) == Ok::<u64, Seq<char>>(id),
            Rollback::Refused(e) => target@ is WholeSystem && system_choice(
                book@.snapshots,
                revision,
            ) == Err::<u64, Seq<char>>(e@),
        },
{
    match target_slot(target) {
        Some(slot) => Rollback::Slot(slot, revision),
        None => match pipeline::choose_snapshot(book, revision) {
            Ok(id) => Rollback::System(id),
            Err(e) => Rollback::Refused(e),
        },
    }
}

/// What one line of a history says.
pub struct HistoryView {
    /// The key of the slot, or `system`.
    pub slot: Seq<char>,
    /// The revision, or the snapshot's id.
    pub revision: u64,
    /// Where the revision stands.
    pub status: Seq<char>,
    /// Who made it.
    pub origin: Seq<char>,
    /// What was noted.
    pub note: Seq<char>,
    /// When it was made.
    pub created_ms: u64,
}

/// What each line of a history says.
pub open spec fn history_views(items: Seq<RevisionInfo>) -> Seq<HistoryView> {
    items.map_values(
        |r: RevisionInfo|
            HistoryView {
                slot: r.slot@,
                revision: r.revision,
                status: r.status@,
                origin: r.origin@,
                note: r.note@,
                created_ms: r.created_ms,
            },
    )
}

/// The line of a revision.
pub open spec fn row_line(row: RowView) -> HistoryView {
    HistoryView {
        slot: row.slot,
        revision: row.revision,
        status: status_word(row.status),
        origin: origin_word(row.origin),
        note: row.note,
        created_ms: row.created_ms,
    }
}

/// The line of a snapshot.
pub open spec fn snapshot_line(s: SystemSnapshot) -> HistoryView {
    HistoryView {
        slot: "system"@,
        revision: s.id,
        status: Seq::empty(),
        origin: "snapshot"@,
        note: s.cause@ + " ["@ + slots_line(s.slots.key_list(), s.slots@) + "]"@,
        created_ms: s.created_ms,
    }
}

fn rows_history(rows: &Vec<RevisionRow>) -> (r: Vec<RevisionInfo>)
    ensures
        history_views(r@) == row_views(rows@).map_values(|row: RowView| row_line(row)),
{
    let ghost all = row_views(rows@).map_values(|row: RowView| row_line(row));
    let mut out: Vec<RevisionInfo> = Vec::new();
    assert(history_views(out@) =~= all.take(0));
    for i in 0..rows.len()
        invariant
            all == row_views(rows@).map_values(|row: RowView| row_line(row)),
            history_views(out@) == all.take(i as int),
    {
        let ghost had = out@;
        let row = &rows[i];
        out.push(
            RevisionInfo {
                slot: row.slot.clone(),
                revision: row.revision,
                status: row.status.label().to_owned(),
                origin: row.origin.label().to_owned(),
                note: row.note.clone(),
                created_ms: row.created_ms,
            },
        );
        proof {
            assert(all[i as int] == row_line(row@));
            assert(history_views(out@) =~= history_views(had).push(all[i as int]));
            assert(all.take(i + 1) =~= all.take(i as int).push(all[i as int]));
        }
    }
    assert(all.take(rows@.len() as int) =~= all);
    out
}

fn snapshots_history(list: &Vec<SystemSnapshot>) -> (r: Vec<RevisionInfo>)
    ensures
        history_views(r@) == list@.map_values(|s: SystemSnapshot| snapshot_line(s)),
{
    let ghost all = list@.map_values(|s: SystemSnapshot| snapshot_line(s));
    let mut out: Vec<RevisionInfo> = Vec::new();
    assert(history_views(out@) =~= all.take(0));
    for i in 0..list.len()
        invariant
            all == list@.map_values(|s: SystemSnapshot| snapshot_line(s)),
            history_views(out@) == all.take(i as int),
    {
        let ghost had = out@;
        let s = &list[i];
        out.push(
            RevisionInfo {
                slot: "system".to_owned(),
                revision: s.id,
                status: String::new(),
                origin: "snapshot".to_owned(),
                note: s.cause.clone().concat(" [").concat(list_slots(&s.slots).as_str()).concat(
                    "]",
                ),
                created_ms: s.created_ms,
            },
        );
        proof {
            assert(all[i as int] == snapshot_line(*s));
            assert(history_views(out@) =~= history_views(had).push(all[i as int]));
            assert(all.take(i + 1) =~= all.take(i as int).push(all[i as int]));
        }
    }
    assert(all.take(list@.len() as int) =~= all);
    out
}

/// The revisions of a slot, or the snapshots of everything, oldest first.
pub fn history(book: &Revisions, target: &RollbackTarget) -> (r: Vec<RevisionInfo>)
    ensures
        history_views(r@) == match slot_of_target(target@) {
            Some(slot) => book@.history(slot_key(slot)).map_values(
                |row: RowView| row_line(row),
            ),
            None => book.shots().map_values(|s: SystemSnapshot| snapshot_line(s)),
        },
{
    match target_slot(target) {
        Some(slot) => rows_history(&book.history(&slot)),
        None => snapshots_history(book.snapshots()),
    }
}

/// A log line is kept as it is up to its limit, and from then on its beginning.
pub proof fn law_a_log_line_is_kept_to_its_limit(s: Seq<char>)
    ensures
        log_line(s).len() <= LOG_CHARS,
        s.len() <= LOG_CHARS ==> log_line(s) == s,
        s.len() > LOG_CHARS ==> log_line(s).len() == LOG_CHARS,
        text::begins(s, log_line(s)),
{
    let l = log_line(s);
    assert(s.subrange(0, l.len() as int) =~= l);
}

/// Notes that are for everyone can be reached from any call, and others only from a
/// call of their own session. A refusal names the session it was about.
pub proof fn law_notes_are_scoped(mine: Seq<char>, scope: Seq<char>)
    ensures
        notes_fault(Some(mine), "global"@) is None,
        notes_fault(None, scope) is None,
        scope != "global"@ ==> (notes_fault(Some(mine), scope) is None <==> scope == mine),
        scope_fault(Some(mine), scope) matches Some(e) ==> text::occurs(e, scope) && text::occurs(
            e,
            mine,
        ),
{
    let mid = " is out of scope for this call (scoped to "@;
    text::lemma_occurs_between("session "@, scope, mid + mine + ")"@);
    assert("session "@ + scope + mid + mine + ")"@ =~= "session "@ + scope + (mid + mine + ")"@));
    text::lemma_occurs_between("session "@ + scope + mid, mine, ")"@);
}

/// A guest reads each setting under its own name: texts as they are, numbers so that
/// they read back, switches as words that read back.
pub proof fn law_a_guest_reads_settings_by_name(cfg: Config)
    ensures
        config_value(cfg, "model"@) == Some(cfg.model@),
        config_value(cfg, "system_prompt"@) == Some(cfg.system_prompt@),
        config_value(cfg, "max_iterations"@) matches Some(s) && text::unsigned_value(
            s,
            u32::MAX as nat,
        ) == Some(cfg.max_iterations as nat),
        config_value(cfg, "max_tool_output_bytes"@) matches Some(s) && text::unsigned_value(
            s,
            usize::MAX as nat,
        ) == Some(cfg.max_tool_output_bytes as nat),
        config_value(cfg, "sandbox_available"@) matches Some(s) && text::bool_value(s) == Some(
            cfg.sandbox_available,
        ),
        config_value(cfg, "devkit_available"@) matches Some(s) && text::bool_value(s) == Some(
            cfg.devkit.enabled,
        ),
{
    reveal_strlit("model");
    reveal_strlit("system_prompt");
    reveal_strlit("max_iterations");
    reveal_strlit("max_tool_output_bytes");
    reveal_strlit("sandbox_available");
    reveal_strlit("devkit_available");
    assert("model"@.len() == 5 && "system_prompt"@.len() == 13 && "max_iterations"@.len() == 14);
    assert("max_tool_output_bytes"@.len() == 21 && "sandbox_available"@.len() == 17);
    assert("devkit_available"@.len() == 16);
    reveal_strlit("true");
    reveal_strlit("false");
    assert("true"@.len() == 4 && "false"@.len() == 5);
    text::law_numbers_read_back(cfg.max_iterations as nat, u32::MAX as nat);
    text::law_numbers_read_back(cfg.max_tool_output_bytes as nat, usize::MAX as nat);
}

/// A call about a session of its own is refused only for a mode or a model that is not
/// on offer, which is named; a session may always go back to the usual model.
pub proof fn law_a_session_is_refused_only_what_is_not_offered(
    cfg: Config,
    session: Seq<char>,
    call: SessionCall,
)
    ensures
        match call {
            SessionCall::SetMode(mode) => {
                &&& session_fault(cfg, Some(session), session, call) is None <==> find_mode(
                    mode_views(cfg.modes@),
                    mode@,
                ) is Some
                &&& session_fault(cfg, Some(session), session, call) matches Some(e) ==> text::ends(
                    e,
                    mode@,
                )
            },
            SessionCall::SetModel(model) => {
                &&& session_fault(cfg, Some(session), session, call) is None <==> model@.len() == 0
                    || (exists|i: int|
                    0 <= i < cfg.models@.len() && (#[trigger] cfg.models@[i]).id@ == model@)
                &&& session_fault(cfg, Some(session), session, call) matches Some(e) ==> text::ends(
                    e,
                    model@,
                )
            },
            _ => session_fault(cfg, Some(session), session, call) is None,
        },
{
    match call {
        SessionCall::SetMode(mode) => {
            let e = "unknown mode: "@ + mode@;
            assert(e.subrange(e.len() - mode@.len(), e.len() as int) =~= mode@);
        },
        SessionCall::SetModel(model) => {
            let e = "unknown model: "@ + model@;
            assert(e.subrange(e.len() - model@.len(), e.len() as int) =~= model@);
        },
        _ => {},
    }
}

/// A model that is no longer on offer is not used.
pub proof fn law_a_withdrawn_model_is_not_used(models: Seq<ModelSpec>, model: Seq<char>)
    requires
        forall|i: int| 0 <= i < models.len() ==> (#[trigger] models[i]).id@ != model,
    ensures
        effective_model(models, model).len() == 0,
{
}

/// A change of the agent itself is put off, once; any other is not.
pub proof fn law_only_the_agent_is_put_off(
    pending: Seq<SlotView>,
    target: ModTargetView,
    slot: SlotView,
)
    ensures
        target is AgentSelf ==> pending_after(pending, target).contains(SlotView::Agent),
        !(target is AgentSelf) ==> pending_after(pending, target) == pending,
        slot != SlotView::Agent ==> pending_after(pending, target).contains(slot)
            == pending.contains(slot),
        pending_after(pending_after(pending, target), target) == pending_after(pending, target),
{
    let after = pending_after(pending, target);
    if target is AgentSelf && !pending.contains(SlotView::Agent) {
        assert(after[pending.len() as int] == SlotView::Agent);
        if pending.contains(slot) {
            let i = choose|i: int| 0 <= i < pending.len() && pending[i] == slot;
            assert(after[i] == slot);
        }
        if slot != SlotView::Agent && after.contains(slot) {
            let i = choose|i: int| 0 <= i < after.len() && after[i] == slot;
            assert(pending[i] == slot);
        }
    }
}

/// A rollback is about the slot of its own kind and name, and one of everything about
/// none.
pub proof fn law_a_rollback_is_about_its_own_slot(name: Seq<char>)
    ensures
        slot_of_target(RollbackTargetView::AgentSelf) == Some(SlotView::Agent),
        slot_of_target(RollbackTargetView::Tool(name)) == Some(SlotView::Tool(name)),
        slot_of_target(RollbackTargetView::Gateway(name)) == Some(SlotView::Gateway(name)),
        slot_of_target(RollbackTargetView::WholeSystem) is None,
{
}

/// A line of a history says what its revision says, field by field; that of a snapshot
/// its id, its time and its cause.
pub proof fn law_a_history_line_says_what_is_on_record(row: RowView, s: SystemSnapshot)
    ensures
        row_line(row).slot == row.slot,
        row_line(row).revision == row.revision,
        row_line(row).status == status_word(row.status),
        row_line(row).origin == origin_word(row.origin),
        row_line(row).note == row.note,
        row_line(row).created_ms == row.created_ms,
        snapshot_line(s).slot == "system"@,
        snapshot_line(s).revision == s.id,
        snapshot_line(s).created_ms == s.created_ms,
        text::begins(snapshot_line(s).note, s.cause@),
        text::occurs(snapshot_line(s).note, slots_line(s.slots.key_list(), s.slots@)),
{
    let line = slots_line(s.slots.key_list(), s.slots@);
    let note = snapshot_line(s).note;
    assert(note.subrange(0, s.cause@.len() as int) =~= s.cause@);
    text::lemma_occurs_between(s.cause@ + " ["@, line, "]"@);
}

/// A mode is described to a guest as it is configured, and a turn is cancelled exactly by
/// a cancellation in its inbox.
pub proof fn law_a_guest_is_told_what_is_configured(
    m: ModeInfo,
    before: Seq<InboxItem>,
    item: InboxItem,
    after: Seq<InboxItem>,
)
    ensures
        mode_info(m).0.id == m.id@,
        mode_info(m).0.label == m.label@,
        mode_info(m).0.description == m.description@,
        mode_info(m).0.read_only == m.read_only,
        cancels(before + seq![item] + after) <==> cancels(before) || item is Cancel || cancels(
            after,
        ),
        !cancels(Seq::empty()),
{
    let all = before + seq![item] + after;
    let n = before.len() as int;
    assert(all[n] == item);
    if cancels(before) {
        let i = choose|i: int| 0 <= i < before.len() && (#[trigger] before[i] is Cancel);
        assert(all[i] is Cancel);
    }
    if cancels(after) {
        let i = choose|i: int| 0 <= i < after.len() && (#[trigger] after[i] is Cancel);
        assert(all[n + 1 + i] is Cancel);
    }
    if cancels(all) {
        let i = choose|i: int| 0 <= i < all.len() && (#[trigger] all[i] is Cancel);
        if i < n {
            assert(before[i] is Cancel);
        } else if i > n {
            assert(after[i - n - 1] is Cancel);
        }
    }
}

} // verus!
