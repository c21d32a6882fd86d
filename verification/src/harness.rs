//! What the harness decides around its guests: which messages start a turn,
//! what a guest's failure means, which tools the model is offered, and which
//! builds and file changes are left alone.
use vstd::prelude::*;

use crate::config::Config;
use crate::loader::{tools_of, LoadedComponent, Loader};
use crate::order;
use crate::order::{before, Ranked};
use crate::revisions::slot_views;
use crate::slot::{slot_key, Slot, SlotView};
use crate::table::{lists_keys, Table};
use crate::text;
use crate::text::{byte_len, decimal, head_within, number, outcome_of};
use crate::time::{span_plus, Span};
use crate::types::{manifest_views, Attachment, ManifestView, SessionMeta, ToolManifest};

verus! {

// --- turns ------------------------------------------------------------------

/// Why a turn ended badly.
///
/// The distinction matters: a reported error usually means something outside
/// the agent went wrong (the model refused, the key is missing), while a trap
/// means this revision of the agent is itself faulty. Only traps count against
/// its circuit breaker.
#[derive(Debug, Clone, PartialEq, Eq)]
pub enum TurnError {
    /// The agent ran correctly and says that something went wrong.
    Reported(String),
    /// The agent itself misbehaved: a panic, a blown budget, a memory limit.
    Trapped(String),
}

/// What an error says.
pub open spec fn turn_message(e: TurnError) -> Seq<char> {
    match e {
        TurnError::Reported(m) => m@,
        TurnError::Trapped(m) => m@,
    }
}

/// What an error reads like.
pub open spec fn turn_error_text(e: TurnError) -> Seq<char> {
    match e {
        TurnError::Reported(m) => m@,
        TurnError::Trapped(m) => "the agent trapped: "@ + m@,
    }
}

impl TurnError {
    /// What went wrong.
    pub fn message(&self) -> (r: &str)
        ensures
            r@ == turn_message(*self),
    {
        match self {
            TurnError::Reported(m) => m.as_str(),
            TurnError::Trapped(m) => m.as_str(),
        }
    }

    /// Whether the agent itself misbehaved.
    pub fn is_trap(&self) -> (r: bool)
        ensures
            r == (*self is Trapped),
    {
        match self {
            TurnError::Trapped(_) => true,
            TurnError::Reported(_) => false,
        }
    }

    /// What the error reads like.
    pub fn shown(&self) -> (r: String)
        ensures
            r@ == turn_error_text(*self),
    {
        match self {
            TurnError::Reported(m) => m.clone(),
            TurnError::Trapped(m) => "the agent trapped: ".to_owned().concat(m.as_str()),
        }
    }
}

/// What a turn came to. The outer result is that of the call, the inner one
/// what the agent said.
pub fn turn_outcome<T>(called: Result<Result<T, String>, String>) -> (r: Result<T, TurnError>)
    ensures
        r == match called {
            Ok(Ok(stats)) => Ok(stats),
            Ok(Err(m)) => Err(TurnError::Reported(m)),
            Err(trap) => Err(TurnError::Trapped(trap)),
        },
{
    match called {
        Ok(Ok(stats)) => Ok(stats),
        Ok(Err(m)) => Err(TurnError::Reported(m)),
        Err(trap) => Err(TurnError::Trapped(trap)),
    }
}

/// What a turn comes to when there is no agent.
pub fn no_agent() -> (r: TurnError)
    ensures
        r is Reported,
        turn_message(r) == "no agent component is loaded"@,
{
    TurnError::Reported("no agent component is loaded".to_owned())
}

/// A session event already rendered to a wire frame by the gateway.
#[derive(Debug, Clone, PartialEq, Eq)]
pub struct RenderedFrame {
    /// The session it belongs to.
    pub session_id: String,
    /// The frame.
    pub frame: String,
}

/// The mode a session is in, or the usual one where there is no such session.
pub open spec fn mode_of(meta: Option<SessionMeta>, usual: Seq<char>) -> Seq<char> {
    match meta {
        Some(m) => m.mode@,
        None => usual,
    }
}

/// The mode whose tools a session is shown.
pub fn session_mode(cfg: &Config, meta: &Option<SessionMeta>) -> (r: String)
    ensures
        r@ == mode_of(*meta, cfg.default_mode@),
{
    match meta {
        Some(m) => m.mode.clone(),
        None => cfg.default_mode.clone(),
    }
}

// --- messages ---------------------------------------------------------------

/// How many characters at the end of a base64 text are padding: at most two.
pub open spec fn padding(data: Seq<char>) -> int {
    let n = data.len();
    if n >= 2 && data[n - 1] == '=' && data[n - 2] == '=' {
        2
    } else if n >= 1 && data[n - 1] == '=' {
        1
    } else {
        0
    }
}

/// How many bytes a base64 text decodes to: three for every four characters, of
/// which padding stands for none.
pub open spec fn decoded_size(data: Seq<char>) -> int {
    let full = byte_len(data) as int / 4 * 3;
    if full >= padding(data) {
        full - padding(data)
    } else {
        0
    }
}

/// How many bytes an attachment decodes to.
pub open spec fn decoded_len(a: Attachment) -> int {
    decoded_size(a.data_base64@)
}

fn decoded_bytes(a: &Attachment) -> (r: usize)
    ensures
        r == decoded_len(*a),
{
    let chars = text::chars_of(a.data_base64.as_str());
    let n: usize = chars.len();
    let pad: usize = if n >= 2 && chars[n - 1] == '=' && chars[n - 2] == '=' {
        2
    } else if n >= 1 && chars[n - 1] == '=' {
        1
    } else {
        0
    };
    let bytes: usize = text::bytes_in(a.data_base64.as_str());
    let full: usize = bytes / 4 * 3;
    if full >= pad {
        full - pad
    } else {
        0
    }
}

/// Why an attachment is refused, if one of a list is: the first that is too
/// large.
pub open spec fn oversized(items: Seq<Attachment>, max: usize) -> Option<Seq<char>>
    decreases items.len(),
{
    if items.len() == 0 {
        None
    } else if decoded_len(items[0]) > max {
        Some(
            "attachment '"@ + items[0].name@ + "' is "@ + decimal(decoded_len(items[0]) as nat)
                + " bytes, over the "@ + decimal(max as nat) + " byte limit"@,
        )
    } else {
        oversized(items.drop_first(), max)
    }
}

/// Why a message is refused, if it is.
pub open spec fn submission_fault(
    cfg: Config,
    known: bool,
    session: Seq<char>,
    attachments: Seq<Attachment>,
) -> Option<Seq<char>> {
    if !known {
        Some("no such session: "@ + session)
    } else if attachments.len() > cfg.max_attachments {
        Some(
            "too many attachments: "@ + decimal(attachments.len()) + " (limit "@ + decimal(
                cfg.max_attachments as nat,
            ) + ")"@,
        )
    } else {
        oversized(attachments, cfg.max_attachment_bytes)
    }
}

/// Whether a message may be routed into a session, which may not exist.
pub fn check_submission(
    cfg: &Config,
    known: bool,
    session: &str,
    attachments: &Vec<Attachment>,
) -> (r: Result<(), String>)
    ensures
        match r {
            Ok(_) => submission_fault(*cfg, known, session@, attachments@) is None,
            Err(e) => submission_fault(*cfg, known, session@, attachments@) == Some(e@),
        },
{
    if !known {
        return Err("no such session: ".to_owned().concat(session));
    }
    if attachments.len() > cfg.max_attachments {
        return Err(
            "too many attachments: ".to_owned().concat(
                number(attachments.len() as u64).as_str(),
            ).concat(" (limit ").concat(number(cfg.max_attachments as u64).as_str()).concat(")"),
        );
    }
    let n: usize = attachments.len();
    let mut i: usize = 0;
    assert(attachments@.skip(0) =~= attachments@);
    while i < n
        invariant
            i <= n == attachments@.len(),
            oversized(attachments@, cfg.max_attachment_bytes) == oversized(
                attachments@.skip(i as int),
                cfg.max_attachment_bytes,
            ),
            known,
            n <= cfg.max_attachments,
        decreases n - i,
    {
        let a = &attachments[i];
        let decoded: usize = decoded_bytes(a);
        proof {
            assert(attachments@.skip(i as int)[0] == *a);
            assert(attachments@.skip(i as int).drop_first() =~= attachments@.skip(i + 1));
        }
        if decoded > cfg.max_attachment_bytes {
            return Err(
                "attachment '".to_owned().concat(a.name.as_str()).concat("' is ").concat(
                    number(decoded as u64).as_str(),
                ).concat(" bytes, over the ").concat(
                    number(cfg.max_attachment_bytes as u64).as_str(),
                ).concat(" byte limit"),
            );
        }
        i = i + 1;
    }
    Ok(())
}

/// A text that fits in a number of bytes, or its beginning and how much of it
/// that is.
pub open spec fn truncated(s: Seq<char>, limit: nat) -> Seq<char> {
    if byte_len(s) <= limit {
        s
    } else {
        head_within(s, limit) + "\n\n[truncated: "@ + decimal(byte_len(head_within(s, limit)))
            + " of "@ + decimal(byte_len(s)) + " bytes shown]"@
    }
}

/// Caps anything headed for the model's context window.
pub fn truncate(cfg: &Config, output: String) -> (r: String)
    ensures
        r@ == truncated(output@, cfg.max_tool_output_bytes as nat),
{
    let total: usize = text::bytes_in(output.as_str());
    if total <= cfg.max_tool_output_bytes {
        return output;
    }
    let kept = text::head(output.as_str(), cfg.max_tool_output_bytes);
    let shown: usize = text::bytes_in(kept.as_str());
    kept.concat("\n\n[truncated: ").concat(number(shown as u64).as_str()).concat(" of ").concat(
        number(total as u64).as_str(),
    ).concat(" bytes shown]")
}

/// What the model is shown of a text is the beginning of that text, within the
/// limit.
pub proof fn law_truncation_keeps_the_beginning(s: Seq<char>, limit: nat)
    ensures
        text::begins(truncated(s, limit), head_within(s, limit)),
        text::begins(s, head_within(s, limit)),
        byte_len(head_within(s, limit)) <= limit,
{
    text::lemma_head_within(s, limit);
    let h = head_within(s, limit);
    let t = truncated(s, limit);
    if byte_len(s) <= limit {
        assert(t.take(h.len() as int) =~= h);
    } else {
        assert(t.take(h.len() as int) =~= h);
    }
}

// --- tools ------------------------------------------------------------------

/// What calling a tool came to.
#[derive(Debug)]
pub struct ToolEnd {
    /// What the model is told.
    pub result: Result<String, String>,
    /// The trap its breaker is told of: a trapping tool is a faulty revision.
    pub trap: Option<String>,
}

/// What the model is told of a call to a tool. The outer result is that of the
/// call, the inner one what the tool said.
pub open spec fn tool_result(
    limit: nat,
    name: Seq<char>,
    called: Result<Result<String, String>, String>,
) -> Result<Seq<char>, Seq<char>> {
    match called {
        Ok(Ok(output)) => Ok(truncated(output@, limit)),
        Ok(Err(message)) => Err(truncated(message@, limit)),
        Err(trap) => Err("tool '"@ + name + "' crashed: "@ + trap@),
    }
}

/// What calling a tool came to. Failures come back as results, so a broken tool
/// interrupts a sentence, not the conversation.
pub fn end_tool_call(cfg: &Config, name: &str, called: Result<Result<String, String>, String>) -> (r:
    ToolEnd)
    ensures
        outcome_of(r.result) == tool_result(cfg.max_tool_output_bytes as nat, name@, called),
        text::text_of(r.trap) == match called {
            Ok(_) => None::<Seq<char>>,
            Err(trap) => Some(trap@),
        },
{
    match called {
        Ok(Ok(output)) => ToolEnd { result: Ok(truncate(cfg, output)), trap: None },
        Ok(Err(message)) => ToolEnd { result: Err(truncate(cfg, message)), trap: None },
        Err(trap) => ToolEnd {
            result: Err(
                "tool '".to_owned().concat(name).concat("' crashed: ").concat(trap.as_str()),
            ),
            trap: Some(trap),
        },
    }
}

/// The message for a tool that is not loaded.
pub fn no_tool(name: &str) -> (r: String)
    ensures
        r@ == "no tool named '"@ + name@ + "' is loaded"@,
{
    "no tool named '".to_owned().concat(name).concat("' is loaded")
}

/// The manifests of the tools, captured when each component was validated.
pub struct Registry {
    manifests: Table<ToolManifest>,
}

impl View for Registry {
    type V = Map<Seq<char>, ToolManifest>;

    closed spec fn view(&self) -> Map<Seq<char>, ToolManifest> {
        self.manifests@
    }
}

/// The manifests kept under these names whose tools are loaded.
pub open spec fn chosen(
    names: Seq<Seq<char>>,
    manifests: Map<Seq<char>, ToolManifest>,
    loaded: Seq<SlotView>,
) -> Seq<ManifestView>
    decreases names.len(),
{
    if names.len() == 0 {
        Seq::empty()
    } else if loaded.contains(SlotView::Tool(names.last())) {
        chosen(names.drop_last(), manifests, loaded).push(manifests[names.last()]@)
    } else {
        chosen(names.drop_last(), manifests, loaded)
    }
}

/// Whether a list holds exactly the manifests of the loaded tools, in the order
/// of the names they give.
pub open spec fn offers(
    list: Seq<ToolManifest>,
    manifests: Map<Seq<char>, ToolManifest>,
    loaded: Seq<SlotView>,
) -> bool {
    &&& order::ranked(list)
    &&& exists|names: Seq<Seq<char>>, picked: Seq<ToolManifest>|
        lists_keys(names, manifests.dom()) && manifest_views(picked) == #[trigger] chosen(
            names,
            manifests,
            loaded,
        ) && #[trigger] picked.to_multiset() == list.to_multiset()
}

impl Ranked for ToolManifest {
    open spec fn precedes(self, other: ToolManifest) -> bool {
        before(self.name@, other.name@)
    }

    proof fn ranks_well(a: ToolManifest, b: ToolManifest, c: ToolManifest) {
        order::lemma_total(a.name@, b.name@);
        order::lemma_total(b.name@, c.name@);
        order::lemma_total(a.name@, c.name@);
        if before(a.name@, c.name@) && before(c.name@, b.name@) {
            order::lemma_transitive(a.name@, c.name@, b.name@);
        }
    }

    fn comes_first(&self, other: &ToolManifest) -> (r: bool) {
        order::comes_before(self.name.as_str(), other.name.as_str())
    }
}

fn is_loaded(loaded: &Vec<Slot>, name: &str) -> (r: bool)
    ensures
        r == slot_views(loaded@).contains(SlotView::Tool(name@)),
{
    let wanted = Slot::tool(name);
    for i in 0..loaded.len()
        invariant
            wanted@ == SlotView::Tool(name@),
            forall|j: int| 0 <= j < i ==> slot_views(loaded@)[j] != SlotView::Tool(name@),
    {
        if loaded[i].is(&wanted) {
            assert(slot_views(loaded@)[i as int] == SlotView::Tool(name@));
            return true;
        }
        assert(slot_views(loaded@)[i as int] == loaded@[i as int]@);
    }
    false
}

impl Registry {
    /// No tools yet.
    pub fn new() -> (r: Registry)
        ensures
            r@ == Map::<Seq<char>, ToolManifest>::empty(),
    {
        Registry { manifests: Table::new() }
    }

    /// Records a tool's manifest, captured when the component passed validation.
    pub fn set_tool_manifest(&mut self, name: &str, manifest: ToolManifest)
        ensures
            final(self)@ == old(self)@.insert(name@, manifest),
    {
        let _ = self.manifests.insert(name.to_owned(), manifest);
    }

    /// Forgets a tool.
    pub fn forget_tool(&mut self, name: &str)
        ensures
            final(self)@ == old(self)@.remove(name@),
    {
        let _ = self.manifests.remove(name);
    }

    /// Manifests for every tool currently loaded, in a stable order so the
    /// model's tool list does not churn between requests.
    pub fn tool_registry(&self, loaded: &Vec<Slot>) -> (r: Vec<ToolManifest>)
        ensures
            offers(r@, self@, slot_views(loaded@)),
    {
        let ghost names = self.manifests.key_list();
        let ghost slots = slot_views(loaded@);
        let mut out: Vec<ToolManifest> = Vec::new();
        assert(manifest_views(out@) =~= chosen(names.take(0), self@, slots));
        let n: usize = self.manifests.len();
        for i in 0..n
            invariant
                n == names.len(),
                names == self.manifests.key_list(),
                slots == slot_views(loaded@),
                manifest_views(out@) == chosen(names.take(i as int), self@, slots),
        {
            let ghost had = out@;
            let name = self.manifests.key_at(i);
            let manifest = self.manifests.value_at(i);
            proof {
                assert(names.take(i + 1).drop_last() =~= names.take(i as int));
                assert(names.take(i + 1).last() == names[i as int]);
            }
            if is_loaded(loaded, name.as_str()) {
                let copy = manifest.copy();
                out.push(copy);
                assert(manifest_views(out@) =~= manifest_views(had).push(copy@));
            }
        }
        assert(names.take(n as int) =~= names);
        assert(lists_keys(names, self@.dom()));
        let ghost picked = out@;
        let r = order::rank(out);
        assert(picked.to_multiset() == r@.to_multiset());
        r
    }
}

/// Every loaded tool that has a manifest is among those chosen, and nothing
/// else is.
pub proof fn law_loaded_tools_are_offered(
    names: Seq<Seq<char>>,
    manifests: Map<Seq<char>, ToolManifest>,
    loaded: Seq<SlotView>,
    m: ManifestView,
)
    requires
        lists_keys(names, manifests.dom()),
    ensures
        chosen(names, manifests, loaded).contains(m) <==> exists|name: Seq<char>|
            #[trigger] manifests.contains_key(name) && loaded.contains(SlotView::Tool(name))
                && manifests[name]@ == m,
{
    lemma_chosen(names, manifests, loaded, m);
    if chosen(names, manifests, loaded).contains(m) {
        let i = choose|i: int|
            0 <= i < names.len() && loaded.contains(SlotView::Tool(#[trigger] names[i]))
                && manifests[names[i]]@ == m;
        assert(names.contains(names[i]));
        assert(manifests.contains_key(names[i]));
    }
    if exists|name: Seq<char>| #[trigger]
        manifests.contains_key(name) && loaded.contains(SlotView::Tool(name)) && manifests[name]@
            == m {
        let name = choose|name: Seq<char>| #[trigger]
            manifests.contains_key(name) && loaded.contains(SlotView::Tool(name))
                && manifests[name]@ == m;
        assert(names.contains(name));
        let i = choose|i: int| 0 <= i < names.len() && names[i] == name;
        assert(loaded.contains(SlotView::Tool(names[i])));
    }
}

/// What the registry holds once a component was installed, given what it said
/// of itself when it was asked to.
pub open spec fn registered(
    manifests: Map<Seq<char>, ToolManifest>,
    slot: SlotView,
    answer: Option<Result<ToolManifest, String>>,
) -> Map<Seq<char>, ToolManifest> {
    match (slot, answer) {
        (SlotView::Tool(name), Some(Ok(manifest))) => manifests.insert(name, manifest),
        _ => manifests,
    }
}

/// What went wrong, where a tool was loaded and could not be registered.
pub open spec fn install_fault(
    slot: SlotView,
    answer: Option<Result<ToolManifest, String>>,
) -> Option<Seq<char>> {
    match (slot, answer) {
        (SlotView::Tool(_), Some(Ok(_))) => None,
        (SlotView::Tool(_), Some(Err(e))) => Some(e@),
        (SlotView::Tool(_), None) => Some("it was not asked to describe itself"@),
        _ => None,
    }
}

/// Installs a component, keeping the tool registry in step with the loader. A
/// tool is asked to describe itself; where it could not or was not, what went
/// wrong is handed back.
///
/// These two must never disagree: a tool that is loaded but unregistered is
/// invisible to the model, which is indistinguishable from it not being
/// installed at all.
pub fn install_component<C>(
    loader: &mut Loader<C>,
    registry: &mut Registry,
    component: LoadedComponent<C>,
    answer: Option<Result<ToolManifest, String>>,
) -> (r: Option<String>)
    ensures
        final(loader)@ == old(loader)@.insert(slot_key(component.slot@), component),
        final(registry)@ == registered(old(registry)@, component.slot@, answer),
        text::text_of(r) == install_fault(component.slot@, answer),
{
    let slot = component.slot.clone();
    let _ = loader.install(component);
    if let Slot::Tool(name) = &slot {
        match answer {
            Some(Ok(manifest)) => {
                registry.set_tool_manifest(name.as_str(), manifest);
                None
            },
            Some(Err(e)) => Some(e),
            None => Some("it was not asked to describe itself".to_owned()),
        }
    } else {
        None
    }
}

/// A tool that is loaded is registered with what it said of itself, unless a fault
/// is handed back.
pub proof fn law_a_loaded_tool_is_registered_or_reported(
    manifests: Map<Seq<char>, ToolManifest>,
    name: Seq<char>,
    answer: Option<Result<ToolManifest, String>>,
)
    requires
        install_fault(SlotView::Tool(name), answer) is None,
    ensures
        answer matches Some(Ok(manifest)) && registered(
            manifests,
            SlotView::Tool(name),
            answer,
        ).contains_pair(name, manifest),
{
}

/// A tool that described itself when it was installed is offered to the model.
pub proof fn law_an_installed_tool_is_offered<C>(
    held: Map<Seq<char>, LoadedComponent<C>>,
    manifests: Map<Seq<char>, ToolManifest>,
    component: LoadedComponent<C>,
    name: Seq<char>,
    manifest: ToolManifest,
    keys: Seq<Seq<char>>,
    names: Seq<Seq<char>>,
)
    requires
        component.slot@ == SlotView::Tool(name),
        lists_keys(keys, held.insert(slot_key(component.slot@), component).dom()),
        lists_keys(
            names,
            registered(manifests, component.slot@, Some(Ok(manifest))).dom(),
        ),
    ensures
        chosen(
            names,
            registered(manifests, component.slot@, Some(Ok(manifest))),
            tools_of(keys, held.insert(slot_key(component.slot@), component)),
        ).contains(manifest@),
{
    let key = slot_key(component.slot@);
    let now = held.insert(key, component);
    let known = registered(manifests, component.slot@, Some(Ok(manifest)));
    assert(now.dom().contains(key));
    assert(keys.contains(key));
    lemma_tools_of(keys, now, key);
    law_loaded_tools_are_offered(names, known, tools_of(keys, now), manifest@);
    assert(known.contains_key(name) && known[name] == manifest);
}

proof fn lemma_tools_of<C>(
    keys: Seq<Seq<char>>,
    held: Map<Seq<char>, LoadedComponent<C>>,
    key: Seq<char>,
)
    requires
        keys.contains(key),
        held[key].slot@ is Tool,
    ensures
        tools_of(keys, held).contains(held[key].slot@),
    decreases keys.len(),
{
    let all = tools_of(keys, held);
    let rest = keys.drop_last();
    if keys.last() == key {
        assert(all[all.len() - 1] == held[key].slot@);
    } else {
        let i = choose|i: int| 0 <= i < keys.len() && keys[i] == key;
        assert(rest[i] == key);
        lemma_tools_of(rest, held, key);
        let head = tools_of(rest, held);
        let k = choose|k: int| 0 <= k < head.len() && head[k] == held[key].slot@;
        assert(all[k] == held[key].slot@);
    }
}

proof fn lemma_chosen(
    names: Seq<Seq<char>>,
    manifests: Map<Seq<char>, ToolManifest>,
    loaded: Seq<SlotView>,
    m: ManifestView,
)
    ensures
        chosen(names, manifests, loaded).contains(m) <==> exists|i: int|
            0 <= i < names.len() && loaded.contains(SlotView::Tool(#[trigger] names[i]))
                && manifests[names[i]]@ == m,
    decreases names.len(),
{
    if names.len() > 0 {
        let rest = names.drop_last();
        lemma_chosen(rest, manifests, loaded, m);
        let all = chosen(names, manifests, loaded);
        let head = chosen(rest, manifests, loaded);
        if all.contains(m) {
            let k = choose|k: int| 0 <= k < all.len() && all[k] == m;
            if k < head.len() {
                assert(head[k] == m);
                assert(head.contains(m));
                let i = choose|i: int|
                    0 <= i < rest.len() && loaded.contains(SlotView::Tool(#[trigger] rest[i]))
                        && manifests[rest[i]]@ == m;
                assert(names[i] == rest[i]);
            } else {
                assert(names[names.len() - 1] == names.last());
            }
        }
        if exists|i: int|
            0 <= i < names.len() && loaded.contains(SlotView::Tool(#[trigger] names[i]))
                && manifests[names[i]]@ == m {
            let i = choose|i: int|
                0 <= i < names.len() && loaded.contains(SlotView::Tool(#[trigger] names[i]))
                    && manifests[names[i]]@ == m;
            if i < rest.len() {
                assert(rest[i] == names[i]);
                assert(head.contains(m));
                let k = choose|k: int| 0 <= k < head.len() && head[k] == m;
                assert(all[k] == m);
            } else {
                assert(all[all.len() - 1] == m);
            }
        }
    }
}

// --- builds in flight -------------------------------------------------------

/// Slots with a build in flight.
///
/// Builds serialize on one lock, so an agent that keeps asking for the same
/// slot would otherwise queue work behind a build that is already going to
/// supersede it. Refusing the duplicate keeps the queue bounded no matter how
/// the agent loops.
pub struct Building {
    slots: Table<()>,
}

impl View for Building {
    type V = Set<Seq<char>>;

    closed spec fn view(&self) -> Set<Seq<char>> {
        self.slots@.dom()
    }
}

impl Building {
    /// No builds.
    pub fn new() -> (r: Building)
        ensures
            r@ == Set::<Seq<char>>::empty(),
    {
        let r = Building { slots: Table::new() };
        assert(r@ =~= Set::<Seq<char>>::empty());
        r
    }

    /// Claims the right to build a slot, unless one is already running.
    pub fn begin_build(&mut self, slot: &Slot) -> (r: bool)
        ensures
            r == !old(self)@.contains(slot_key(slot@)),
            final(self)@ == old(self)@.insert(slot_key(slot@)),
    {
        let key = slot.key();
        let ghost k = key@;
        let ghost was = self@;
        let held = self.slots.insert(key, ()).is_some();
        assert(self@ =~= was.insert(k));
        !held
    }

    /// Gives that right back.
    pub fn end_build(&mut self, slot: &Slot)
        ensures
            final(self)@ == old(self)@.remove(slot_key(slot@)),
    {
        let key = slot.key();
        let ghost was = self@;
        let _ = self.slots.remove(key.as_str());
        assert(self@ =~= was.remove(key@));
    }
}

// --- watcher suppression ----------------------------------------------------

/// Slots whose file changes are ignored until a moment. A rollback rewrites the
/// source tree, and without this the watcher would treat its own restore as a
/// fresh edit and rebuild over it.
pub struct Suppressed {
    until: Table<Span>,
}

impl View for Suppressed {
    type V = Map<Seq<char>, Span>;

    closed spec fn view(&self) -> Map<Seq<char>, Span> {
        self.until@
    }
}

/// Whether changes to a slot are ignored.
pub open spec fn ignored(until: Map<Seq<char>, Span>, key: Seq<char>, now: Span) -> bool {
    until.contains_key(key) && until[key].total() > now.total()
}

impl Suppressed {
    #[verifier::type_invariant]
    spec fn well_formed(self) -> bool {
        forall|k: Seq<char>| #[trigger] self.until@.contains_key(k) ==> self.until@[k].ok()
    }

    /// Nothing is ignored.
    pub fn new() -> (r: Suppressed)
        ensures
            r@ == Map::<Seq<char>, Span>::empty(),
    {
        Suppressed { until: Table::new() }
    }

    /// Tells the file watcher to ignore this slot for a while, because the
    /// orchestrator is about to rewrite its source itself.
    pub fn suppress_watch(&mut self, slot: &Slot, window: Span, now: Span)
        requires
            now.ok(),
            window.ok(),
            now.secs + window.secs < u64::MAX,
        ensures
            final(self)@ == old(self)@.insert(slot_key(slot@), span_plus(now, window)),
    {
        proof {
            use_type_invariant(&*self);
        }
        let mut table: Table<Span> = Table::new();
        std::mem::swap(&mut table, &mut self.until);
        let _ = table.insert(slot.key(), now.plus(&window));
        self.until = table;
    }

    /// Whether changes to a slot are ignored. What has run out is forgotten.
    pub fn watch_suppressed(&mut self, slot: &Slot, now: Span) -> (r: bool)
        requires
            now.ok(),
        ensures
            r == ignored(old(self)@, slot_key(slot@), now),
            final(self)@ == if r {
                old(self)@
            } else {
                old(self)@.remove(slot_key(slot@))
            },
    {
        proof {
            use_type_invariant(&*self);
        }
        let key = slot.key();
        let ghost was = self.until@;
        let active = match self.until.get(key.as_str()) {
            Some(until) => now.shorter_than(until),
            None => false,
        };
        if active {
            return true;
        }
        let mut table: Table<Span> = Table::new();
        std::mem::swap(&mut table, &mut self.until);
        let _ = table.remove(key.as_str());
        self.until = table;
        false
    }
}

/// A slot the orchestrator just wrote to is ignored until the window is over,
/// and not after.
pub proof fn law_suppression_lasts_for_its_window(
    until: Map<Seq<char>, Span>,
    key: Seq<char>,
    now: Span,
    window: Span,
    later: Span,
)
    requires
        now.ok(),
        window.ok(),
        now.secs + window.secs < u64::MAX,
    ensures
        ignored(until.insert(key, span_plus(now, window)), key, later) <==> later.total()
            < now.total() + window.total(),
{
}

/// Data that stands for some number of bytes is measured as that many: every three
/// bytes take four letters, and the last letters are filled up.
pub proof fn law_an_attachment_is_measured_by_what_it_holds(data: Seq<char>, n: nat)
    requires
        forall|i: int| 0 <= i < data.len() ==> (#[trigger] data[i] as u32) < 0x80,
        data.len() == (n + 2) / 3 * 4,
        padding(data) == (3 - n % 3) % 3,
    ensures
        decoded_size(data) == n,
{
    lemma_ascii(data);
    let k = (n + 2) / 3;
    assert(byte_len(data) == k * 4);
    assert((k * 4) / 4 == k);
    assert(n % 3 == 0 || n % 3 == 1 || n % 3 == 2);
}

proof fn lemma_ascii(s: Seq<char>)
    requires
        forall|i: int| 0 <= i < s.len() ==> (#[trigger] s[i] as u32) < 0x80,
    ensures
        byte_len(s) == s.len(),
    decreases s.len(),
{
    if s.len() > 0 {
        let rest = s.drop_last();
        assert forall|i: int| 0 <= i < rest.len() implies (#[trigger] rest[i] as u32) < 0x80 by {
            assert(rest[i] == s[i]);
        }
        lemma_ascii(rest);
        text::lemma_byte_len_ends(s);
        assert((s[s.len() - 1] as u32) < 0x80);
    } else {
        assert(s =~= Seq::<char>::empty());
    }
}

/// A message is accepted exactly where its session is known, its files are not too
/// many, and none of them is too large; the first that is too large is named.
pub proof fn law_a_message_is_accepted_within_its_limits(
    cfg: Config,
    known: bool,
    session: Seq<char>,
    attachments: Seq<Attachment>,
)
    ensures
        submission_fault(cfg, known, session, attachments) is None <==> known && attachments.len()
            <= cfg.max_attachments && (forall|i: int|
            0 <= i < attachments.len() ==> decoded_len(#[trigger] attachments[i])
                <= cfg.max_attachment_bytes),
        !known ==> (submission_fault(cfg, known, session, attachments) matches Some(e)
            && text::ends(e, session)),
        known && attachments.len() <= cfg.max_attachments ==> (submission_fault(
            cfg,
            known,
            session,
            attachments,
        ) matches Some(e) ==> exists|i: int|
            0 <= i < attachments.len() && text::occurs(e, (#[trigger] attachments[i]).name@)
                && decoded_len(attachments[i]) > cfg.max_attachment_bytes),
{
    lemma_oversized(attachments, cfg.max_attachment_bytes);
    let e = "no such session: "@ + session;
    assert(e.subrange(e.len() - session.len(), e.len() as int) =~= session);
}

proof fn lemma_oversized(items: Seq<Attachment>, max: usize)
    ensures
        oversized(items, max) is None <==> (forall|i: int|
            0 <= i < items.len() ==> decoded_len(#[trigger] items[i]) <= max),
        oversized(items, max) matches Some(e) ==> exists|i: int|
            0 <= i < items.len() && text::occurs(e, (#[trigger] items[i]).name@) && decoded_len(
                items[i],
            ) > max,
    decreases items.len(),
{
    if items.len() > 0 {
        let rest = items.drop_first();
        lemma_oversized(rest, max);
        assert forall|i: int| 0 <= i < rest.len() implies rest[i] == #[trigger] items[i + 1] by {}
        if decoded_len(items[0]) > max {
            let tail = "' is "@ + decimal(decoded_len(items[0]) as nat) + " bytes, over the "@
                + decimal(max as nat) + " byte limit"@;
            text::lemma_occurs_between("attachment '"@, items[0].name@, tail);
            assert(oversized(items, max)->0 =~= "attachment '"@ + items[0].name@ + tail);
        } else {
            if let Some(e) = oversized(rest, max) {
                let i = choose|i: int|
                    0 <= i < rest.len() && text::occurs(e, (#[trigger] rest[i]).name@)
                        && decoded_len(rest[i]) > max;
                assert(items[i + 1] == rest[i]);
            } else {
                assert forall|i: int| 0 <= i < items.len() implies decoded_len(#[trigger] items[i])
                    <= max by {
                    if i > 0 {
                        assert(rest[i - 1] == items[i]);
                    }
                }
            }
        }
    }
}

/// Output that fits is handed on as it is; of longer output the longest beginning that
/// fits, and it says how much of how much that is.
pub proof fn law_output_that_fits_is_handed_on_whole(s: Seq<char>, limit: nat, n: int)
    ensures
        byte_len(s) <= limit ==> truncated(s, limit) == s,
        byte_len(s) > limit ==> text::begins(truncated(s, limit), head_within(s, limit))
            && text::occurs(truncated(s, limit), decimal(byte_len(s))) && text::occurs(
            truncated(s, limit),
            decimal(byte_len(head_within(s, limit))),
        ),
        head_within(s, limit).len() < n <= s.len() ==> byte_len(s.take(n)) > limit,
{
    law_truncation_keeps_the_beginning(s, limit);
    if head_within(s, limit).len() < n <= s.len() {
        text::law_the_longest_beginning_is_kept(s, limit, n);
    }
    if byte_len(s) > limit {
        let h = head_within(s, limit);
        let a = decimal(byte_len(h));
        let b = decimal(byte_len(s));
        let mark = "\n\n[truncated: "@;
        text::lemma_occurs_between(h + mark, a, " of "@ + b + " bytes shown]"@);
        assert(truncated(s, limit) =~= h + mark + a + (" of "@ + b + " bytes shown]"@));
        text::lemma_occurs_between(h + mark + a + " of "@, b, " bytes shown]"@);
    }
}

/// What the model is told of a call is what the tool said, as far as it fits: its words
/// where it worked, its message where it did not, and which tool crashed and why where
/// it did.
pub proof fn law_a_call_is_reported_as_it_went(
    limit: nat,
    name: Seq<char>,
    called: Result<Result<String, String>, String>,
)
    ensures
        match called {
            Ok(Ok(output)) => tool_result(limit, name, called) is Ok && (byte_len(output@) <= limit
                ==> tool_result(limit, name, called) == Ok::<Seq<char>, Seq<char>>(output@)),
            Ok(Err(message)) => tool_result(limit, name, called) is Err && (byte_len(message@)
                <= limit ==> tool_result(limit, name, called) == Err::<Seq<char>, Seq<char>>(
                message@,
            )),
            Err(trap) => tool_result(limit, name, called) matches Err(e) && text::occurs(e, name)
                && text::ends(e, trap@),
        },
{
    if let Err(trap) = called {
        let e = "tool '"@ + name + "' crashed: "@ + trap@;
        assert(e.subrange(e.len() - trap@.len(), e.len() as int) =~= trap@);
        text::lemma_occurs_between("tool '"@, name, "' crashed: "@ + trap@);
        assert(e =~= "tool '"@ + name + ("' crashed: "@ + trap@));
    }
}

/// Installing a component changes what is known of that tool alone; anything but a tool
/// that describes itself changes nothing. A tool that cannot be described is reported
/// with its own words.
pub proof fn law_installing_changes_one_tool(
    manifests: Map<Seq<char>, ToolManifest>,
    slot: SlotView,
    answer: Option<Result<ToolManifest, String>>,
    other: Seq<char>,
)
    ensures
        slot != SlotView::Tool(other) ==> registered(manifests, slot, answer).contains_key(other)
            == manifests.contains_key(other) && registered(manifests, slot, answer)[other]
            == manifests[other],
        !(answer matches Some(Ok(_))) ==> registered(manifests, slot, answer) == manifests,
        !(slot is Tool) ==> registered(manifests, slot, answer) == manifests && install_fault(
            slot,
            answer,
        ) is None,
        slot is Tool && (answer matches Some(Err(e))) ==> (install_fault(slot, answer) matches Some(
            f,
        ) && f == answer->0->Err_0@),
        slot is Tool && answer is None ==> install_fault(slot, answer) is Some,
{
}

/// A fault of a turn is shown with what the agent or its trap said.
pub proof fn law_a_turn_says_what_went_wrong(e: TurnError, m: String)
    ensures
        turn_message(TurnError::Reported(m)) == m@,
        turn_message(TurnError::Trapped(m)) == m@,
        turn_error_text(TurnError::Reported(m)) == m@,
        text::ends(turn_error_text(TurnError::Trapped(m)), m@),
        text::ends(turn_error_text(e), turn_message(e)),
{
    let t = "the agent trapped: "@ + m@;
    assert(t.subrange(t.len() - m@.len(), t.len() as int) =~= m@);
    let n = turn_message(e);
    let s = turn_error_text(e);
    assert(s.subrange(s.len() - n.len(), s.len() as int) =~= n);
}

/// A session works in its own mode, and one that is not known in the usual one.
pub proof fn law_a_session_works_in_its_own_mode(meta: SessionMeta, usual: Seq<char>)
    ensures
        mode_of(Some(meta), usual) == meta.mode@,
        mode_of(None, usual) == usual,
{
}

} // verus!
