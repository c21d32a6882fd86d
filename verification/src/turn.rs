//! One turn of the agent.
//!
//! The agent holds no state between turns: every turn rehydrates the
//! conversation from the session log, so a crash, a hot swap, or an
//! orchestrator restart costs nothing. The shape of one turn:
//!   rehydrate -> assemble context -> complete -> dispatch tool calls ->
//!   check the inbox for nudges -> repeat until the model stops.
//!
//! `Turn::step` takes what just happened and says what to do next; whoever
//! runs the turn does it and reports back.
use vstd::prelude::*;

use crate::json;
use crate::json::{trees, Json, JsonView};
use crate::report::given;
use crate::text;
use crate::text::{begins, decimal, text_of, texts, trimmed, unsigned_value};
use crate::tools;
use crate::tools::{offered, tool_views, Access, ToolView};
use crate::types::{
    AssistantMsg, Attachment, InboxItem, LlmError, ModeInfo, SessionEvent, SkillInfo, TokenUsage,
    ToolCall, ToolOutcome, UserMsg,
};

verus! {

/// Hard ceiling on loop iterations, in case configuration is missing or absurd.
pub const ABSOLUTE_MAX_ITERATIONS: u32 = 64;

/// How many iterations a turn takes where configuration does not say.
pub const DEFAULT_MAX_ITERATIONS: u32 = 32;

/// The prompt used where configuration has none.
pub const FALLBACK_PROMPT: &'static str = "You are a helpful assistant.";

// --- what the agent says about itself ---------------------------------------

/// How the agent introduces itself.
#[derive(Debug, Clone, PartialEq, Eq)]
pub struct AgentManifest {
    /// Its name.
    pub name: String,
    /// What this version is.
    pub version_note: String,
    /// The names of the tools it offers.
    pub skills: Vec<String>,
}

/// The health probe's answer.
pub fn health() -> (r: String)
    ensures
        r@ == "ok"@,
{
    "ok".to_owned()
}

/// How the agent introduces itself, with the tools of the default mode.
pub fn describe(access: Access, modes: &Vec<ModeInfo>) -> (r: AgentManifest)
    ensures
        r.name@ == "agent-core"@,
        r.version_note@ == "streaming loop with nudges and memory tools"@,
        texts(r.skills@) == offered(tools::DEFAULT_MODE@, access, modes@).map_values(
            |t: ToolView| t.name,
        ),
{
    let list = tools::available(tools::DEFAULT_MODE, access, modes);
    let ghost names = tool_views(list@).map_values(|t: ToolView| t.name);
    let mut skills: Vec<String> = Vec::new();
    for i in 0..list.len()
        invariant
            names == tool_views(list@).map_values(|t: ToolView| t.name),
            texts(skills@) == names.take(i as int),
    {
        let ghost had = skills@;
        let name = list[i].name.to_owned();
        skills.push(name);
        proof {
            text::lemma_texts_push(had, name);
            assert(tool_views(list@)[i as int] == list@[i as int]@);
            assert(names.take(i + 1) =~= names.take(i as int).push(names[i as int]));
        }
    }
    assert(names.take(list@.len() as int) =~= names);
    AgentManifest {
        name: "agent-core".to_owned(),
        version_note: "streaming loop with nudges and memory tools".to_owned(),
        skills,
    }
}

// --- configuration ----------------------------------------------------------

/// A setting, or a fallback where it is not set.
pub open spec fn setting_or(value: Option<Seq<char>>, fallback: Seq<char>) -> Seq<char> {
    match value {
        Some(v) => v,
        None => fallback,
    }
}

/// A setting, or a fallback where it is not set.
pub fn config_str(value: &Option<String>, fallback: &str) -> (r: String)
    ensures
        r@ == setting_or(text_of(*value), fallback@),
{
    match value {
        Some(v) => v.clone(),
        None => fallback.to_owned(),
    }
}

/// A numeric setting, or a fallback where it is not set or not a number.
pub open spec fn count_or(value: Option<Seq<char>>, fallback: u32) -> u32 {
    match value {
        Some(v) => match unsigned_value(v, u32::MAX as nat) {
            Some(n) => n as u32,
            None => fallback,
        },
        None => fallback,
    }
}

/// A numeric setting, or a fallback where it is not set or not a number.
pub fn config_u32(value: &Option<String>, fallback: u32) -> (r: u32)
    ensures
        r == count_or(text_of(*value), fallback),
{
    match value {
        Some(v) => match text::parse_unsigned(v.as_str(), u32::MAX as u64) {
            Some(n) => n as u32,
            None => fallback,
        },
        None => fallback,
    }
}

/// The session's own choice where it made one, the fallback otherwise.
pub open spec fn choice_or(choice: Option<Seq<char>>, fallback: Seq<char>) -> Seq<char> {
    match choice {
        Some(c) => if c.len() > 0 {
            c
        } else {
            fallback
        },
        None => fallback,
    }
}

fn choose_or(choice: &Option<String>, fallback: &str) -> (r: String)
    ensures
        r@ == choice_or(text_of(*choice), fallback@),
{
    match choice {
        Some(c) => if text::is_empty(c.as_str()) {
            fallback.to_owned()
        } else {
            c.clone()
        },
        None => fallback.to_owned(),
    }
}

// --- the conversation as the model sees it ----------------------------------

/// A message in a role.
pub open spec fn message(role: Seq<char>, content: JsonView) -> JsonView {
    JsonView::Object(map!["role"@ => JsonView::Text(role), "content"@ => content])
}

fn make_message(role: &str, content: Json) -> (r: Json)
    ensures
        r@ == message(role@, content@),
{
    Json::object().with("role", Json::text(role)).with("content", content)
}

/// A message with the result of a tool call.
pub open spec fn tool_message(call_id: Seq<char>, content: Seq<char>) -> JsonView {
    JsonView::Object(
        map![
            "role"@ => JsonView::Text("tool"@),
            "tool_call_id"@ => JsonView::Text(call_id),
            "content"@ => JsonView::Text(content),
        ],
    )
}

fn make_tool_message(call_id: &str, content: &str) -> (r: Json)
    ensures
        r@ == tool_message(call_id@, content@),
{
    Json::object().with("role", Json::text("tool")).with(
        "tool_call_id",
        Json::text(call_id),
    ).with("content", Json::text(content))
}

/// A piece of text in a message of several parts.
pub open spec fn text_part(s: Seq<char>) -> JsonView {
    JsonView::Object(
        map!["type"@ => JsonView::Text("text"@), "text"@ => JsonView::Text(s)],
    )
}

/// One attachment as part of a message: an image goes inline as a data URL; of
/// anything else the model is told that the file was there.
pub open spec fn attachment_part(a: Attachment) -> JsonView {
    if begins(a.mime@, "image/"@) {
        JsonView::Object(
            map![
                "type"@ => JsonView::Text("image_url"@),
                "image_url"@ => JsonView::Object(map![
                    "url"@ => JsonView::Text(
                        "data:"@ + a.mime@ + ";base64,"@ + a.data_base64@,
                    ),
                ]),
            ],
        )
    } else {
        text_part("[attached file: "@ + a.name@ + " ("@ + a.mime@ + ")]"@)
    }
}

/// The content of a user message. Plain text stays a bare string, which every
/// provider accepts; attachments promote it to the multi-part form.
pub open spec fn user_json(msg: UserMsg) -> JsonView {
    if msg.attachments@.len() == 0 {
        JsonView::Text(msg.text@)
    } else {
        JsonView::Array(
            (if trimmed(msg.text@).len() > 0 {
                seq![text_part(msg.text@)]
            } else {
                Seq::empty()
            }) + msg.attachments@.map_values(|a: Attachment| attachment_part(a)),
        )
    }
}

fn make_text_part(s: &str) -> (r: Json)
    ensures
        r@ == text_part(s@),
{
    Json::object().with("type", Json::text("text")).with("text", Json::text(s))
}

fn make_attachment_part(a: &Attachment) -> (r: Json)
    ensures
        r@ == attachment_part(*a),
{
    if text::starts_with(a.mime.as_str(), "image/") {
        let url = "data:".to_owned().concat(a.mime.as_str()).concat(";base64,").concat(
            a.data_base64.as_str(),
        );
        Json::object().with("type", Json::text("image_url")).with(
            "image_url",
            Json::object().with("url", Json::Text(url)),
        )
    } else {
        let note = "[attached file: ".to_owned().concat(a.name.as_str()).concat(" (").concat(
            a.mime.as_str(),
        ).concat(")]");
        make_text_part(note.as_str())
    }
}

/// Builds the content of a user message.
pub fn user_content(msg: &UserMsg) -> (r: Json)
    ensures
        r@ == user_json(*msg),
{
    if msg.attachments.len() == 0 {
        return Json::text(msg.text.as_str());
    }
    let mut parts: Vec<Json> = Vec::new();
    if !text::is_blank(msg.text.as_str()) {
        let ghost none = parts@;
        let part = make_text_part(msg.text.as_str());
        parts.push(part);
        proof {
            json::lemma_trees_push(none, part);
        }
    }
    let ghost lead = trees(parts@);
    let ghost rest = msg.attachments@.map_values(|a: Attachment| attachment_part(a));
    assert(lead =~= if trimmed(msg.text@).len() > 0 {
        seq![text_part(msg.text@)]
    } else {
        Seq::empty()
    });
    assert(lead + rest.take(0) =~= lead);
    for i in 0..msg.attachments.len()
        invariant
            rest == msg.attachments@.map_values(|a: Attachment| attachment_part(a)),
            trees(parts@) == lead + rest.take(i as int),
    {
        let ghost had = parts@;
        let part = make_attachment_part(&msg.attachments[i]);
        parts.push(part);
        proof {
            json::lemma_trees_push(had, part);
            assert(lead + rest.take(i + 1) =~= (lead + rest.take(i as int)).push(rest[i as int]));
        }
    }
    assert(rest.take(msg.attachments@.len() as int) =~= rest);
    Json::Array(parts)
}

/// What a tool call asks for.
pub struct CallView {
    /// The id the result goes back under.
    pub id: Seq<char>,
    /// The tool's name.
    pub name: Seq<char>,
    /// Its arguments.
    pub arguments_json: Seq<char>,
}

impl View for ToolCall {
    type V = CallView;

    open spec fn view(&self) -> CallView {
        CallView {
            id: self.id@,
            name: self.name@,
            arguments_json: self.arguments_json@,
        }
    }
}

/// What each call of a list asks for.
pub open spec fn call_views(calls: Seq<ToolCall>) -> Seq<CallView> {
    calls.map_values(|c: ToolCall| c@)
}

fn copy_call(call: &ToolCall) -> (r: ToolCall)
    ensures
        r@ == call@,
{
    ToolCall {
        id: call.id.clone(),
        name: call.name.clone(),
        arguments_json: call.arguments_json.clone(),
    }
}

/// A call as the model's own message repeats it.
pub open spec fn call_json(c: CallView) -> JsonView {
    JsonView::Object(
        map![
            "id"@ => JsonView::Text(c.id),
            "type"@ => JsonView::Text("function"@),
            "function"@ => JsonView::Object(map![
                "name"@ => JsonView::Text(c.name),
                "arguments"@ => JsonView::Text(c.arguments_json),
            ]),
        ],
    )
}

/// The model's own message, with the calls it asked for if there were any.
pub open spec fn assistant_json(content: Seq<char>, calls: Seq<CallView>) -> JsonView {
    let spoken = map!["role"@ => JsonView::Text("assistant"@), "content"@ => JsonView::Text(content)];
    if calls.len() == 0 {
        JsonView::Object(spoken)
    } else {
        JsonView::Object(
            spoken.insert(
                "tool_calls"@,
                JsonView::Array(calls.map_values(|c: CallView| call_json(c))),
            ),
        )
    }
}

/// Builds the model's own message.
pub fn assistant_message(content: &str, calls: &Vec<ToolCall>) -> (r: Json)
    ensures
        r@ == assistant_json(content@, call_views(calls@)),
{
    let spoken = make_message("assistant", Json::text(content));
    if calls.len() == 0 {
        return spoken;
    }
    let ghost all = call_views(calls@).map_values(|c: CallView| call_json(c));
    let mut list: Vec<Json> = Vec::new();
    for i in 0..calls.len()
        invariant
            all == call_views(calls@).map_values(|c: CallView| call_json(c)),
            trees(list@) == all.take(i as int),
    {
        let ghost had = list@;
        let item = Json::object().with("id", Json::text(calls[i].id.as_str())).with(
            "type",
            Json::text("function"),
        ).with(
            "function",
            Json::object().with("name", Json::text(calls[i].name.as_str())).with(
                "arguments",
                Json::text(calls[i].arguments_json.as_str()),
            ),
        );
        list.push(item);
        proof {
            json::lemma_trees_push(had, item);
            assert(call_views(calls@)[i as int] == calls@[i as int]@);
            assert(all.take(i + 1) =~= all.take(i as int).push(all[i as int]));
        }
    }
    assert(all.take(calls@.len() as int) =~= all);
    spoken.with("tool_calls", Json::Array(list))
}

/// The message an event of the log stands for. Bookkeeping events carry no
/// conversational meaning.
pub open spec fn event_message(event: SessionEvent) -> Option<JsonView> {
    match event {
        SessionEvent::UserMessage(msg) => Some(message("user"@, user_json(msg))),
        SessionEvent::Nudge(s) => Some(message("user"@, JsonView::Text(s@))),
        SessionEvent::AssistantMessage(msg) => Some(
            assistant_json(msg.content@, call_views(msg.tool_calls@)),
        ),
        SessionEvent::ToolResult(out) => Some(tool_message(out.call_id@, out.content@)),
        SessionEvent::SystemNote(s) => Some(message("system"@, JsonView::Text(s@))),
        _ => None,
    }
}

/// The messages a log stands for.
pub open spec fn log_messages(events: Seq<SessionEvent>) -> Seq<JsonView>
    decreases events.len(),
{
    if events.len() == 0 {
        Seq::empty()
    } else {
        match event_message(events.last()) {
            Some(m) => log_messages(events.drop_last()).push(m),
            None => log_messages(events.drop_last()),
        }
    }
}

/// The conversation rebuilt from the log, behind the system prompt.
pub open spec fn rehydrated(prompt: Seq<char>, events: Seq<SessionEvent>) -> Seq<JsonView> {
    seq![message("system"@, JsonView::Text(prompt))] + log_messages(events)
}

fn make_event_message(event: &SessionEvent) -> (r: Option<Json>)
    ensures
        match r {
            Some(m) => event_message(*event) == Some(m@),
            None => event_message(*event) is None,
        },
{
    match event {
        SessionEvent::UserMessage(msg) => Some(make_message("user", user_content(msg))),
        SessionEvent::Nudge(s) => Some(make_message("user", Json::text(s.as_str()))),
        SessionEvent::AssistantMessage(msg) => Some(
            assistant_message(msg.content.as_str(), &msg.tool_calls),
        ),
        SessionEvent::ToolResult(out) => Some(
            make_tool_message(out.call_id.as_str(), out.content.as_str()),
        ),
        SessionEvent::SystemNote(s) => Some(make_message("system", Json::text(s.as_str()))),
        _ => None,
    }
}

/// Rebuilds the model's view of the conversation from the event log.
pub fn rehydrate(prompt: &str, events: &Vec<SessionEvent>) -> (r: Vec<Json>)
    ensures
        trees(r@) == rehydrated(prompt@, events@),
{
    let mut out: Vec<Json> = Vec::new();
    let ghost none = out@;
    let first = make_message("system", Json::text(prompt));
    out.push(first);
    let ghost lead = seq![message("system"@, JsonView::Text(prompt@))];
    proof {
        json::lemma_trees_push(none, first);
        assert(trees(out@) =~= lead);
        assert(events@.take(0) =~= Seq::<SessionEvent>::empty());
        assert(lead + log_messages(events@.take(0)) =~= lead);
    }
    for i in 0..events.len()
        invariant
            trees(out@) == lead + log_messages(events@.take(i as int)),
    {
        let ghost had = out@;
        proof {
            assert(events@.take(i + 1).drop_last() =~= events@.take(i as int));
            assert(events@.take(i + 1).last() == events@[i as int]);
        }
        if let Some(m) = make_event_message(&events[i]) {
            out.push(m);
            proof {
                json::lemma_trees_push(had, m);
                assert(lead + log_messages(events@.take(i as int)).push(m@) =~= (lead
                    + log_messages(events@.take(i as int))).push(m@));
            }
        }
    }
    assert(events@.take(events@.len() as int) =~= events@);
    out
}

/// The section a skill adds to the prompt.
pub open spec fn skill_section(s: SkillInfo) -> Seq<char> {
    "\n## "@ + s.name@ + "\n"@ + s.instructions@ + "\n"@
}

/// The sections of the skills that are attached, in order.
pub open spec fn skill_sections(skills: Seq<SkillInfo>) -> Seq<char>
    decreases skills.len(),
{
    if skills.len() == 0 {
        Seq::empty()
    } else {
        skill_sections(skills.drop_last()) + given(
            skills.last().enabled,
            skill_section(skills.last()),
        )
    }
}

/// Whether any skill is attached.
pub open spec fn any_attached(skills: Seq<SkillInfo>) -> bool {
    exists|i: int| 0 <= i < skills.len() && (#[trigger] skills[i]).enabled
}

/// The base prompt plus the instructions of every skill attached to the
/// conversation.
pub open spec fn prompt_text(base: Option<Seq<char>>, skills: Seq<SkillInfo>) -> Seq<char> {
    setting_or(base, FALLBACK_PROMPT@) + given(
        any_attached(skills),
        "\n\n# Active skills\n"@ + skill_sections(skills),
    )
}

/// The base prompt plus the instructions of every attached skill.
pub fn system_prompt(base: &Option<String>, skills: &Vec<SkillInfo>) -> (r: String)
    ensures
        r@ == prompt_text(text_of(*base), skills@),
{
    let mut prompt = config_str(base, FALLBACK_PROMPT);
    let mut sections = String::new();
    let mut any = false;
    assert(skills@.take(0) =~= Seq::<SkillInfo>::empty());
    for i in 0..skills.len()
        invariant
            sections@ == skill_sections(skills@.take(i as int)),
            any == exists|j: int| 0 <= j < i && (#[trigger] skills@[j]).enabled,
    {
        proof {
            assert(skills@.take(i + 1).drop_last() =~= skills@.take(i as int));
            assert(skills@.take(i + 1).last() == skills@[i as int]);
        }
        let section = "\n## ".to_owned().concat(skills[i].name.as_str()).concat("\n").concat(
            skills[i].instructions.as_str(),
        ).concat("\n");
        crate::report::append_when(&mut sections, skills[i].enabled, section.as_str());
        if skills[i].enabled {
            any = true;
        }
    }
    assert(skills@.take(skills@.len() as int) =~= skills@);
    let heading = "\n\n# Active skills\n".to_owned().concat(sections.as_str());
    crate::report::append_when(&mut prompt, any, heading.as_str());
    prompt
}

/// The message for a failed completion.
pub open spec fn llm_error_text(e: LlmError) -> Seq<char> {
    match e {
        LlmError::Auth(d) => "authentication failed: "@ + d@,
        LlmError::RateLimited(d) => "rate limited: "@ + d@,
        LlmError::Transport(d) => "transport error: "@ + d@,
        LlmError::ModelError(d) => "model error: "@ + d@,
        LlmError::Budget(d) => "spend limit reached: "@ + d@,
        LlmError::BadRequest(d) => "bad request: "@ + d@,
    }
}

/// The message for a failed completion.
pub fn describe_llm_error(e: &LlmError) -> (r: String)
    ensures
        r@ == llm_error_text(*e),
{
    match e {
        LlmError::Auth(d) => "authentication failed: ".to_owned().concat(d.as_str()),
        LlmError::RateLimited(d) => "rate limited: ".to_owned().concat(d.as_str()),
        LlmError::Transport(d) => "transport error: ".to_owned().concat(d.as_str()),
        LlmError::ModelError(d) => "model error: ".to_owned().concat(d.as_str()),
        LlmError::Budget(d) => "spend limit reached: ".to_owned().concat(d.as_str()),
        LlmError::BadRequest(d) => "bad request: ".to_owned().concat(d.as_str()),
    }
}

// --- one completion ---------------------------------------------------------

/// How a completion ended.
#[derive(Debug, PartialEq, Eq)]
pub struct FinishInfo {
    /// The model that answered.
    pub model: String,
    /// What it used up, if the provider said.
    pub usage: Option<TokenUsage>,
}

/// A piece of a completion on its way.
#[derive(Debug, PartialEq, Eq)]
pub enum StreamChunk {
    /// More words.
    Delta(String),
    /// The calls the model asks for.
    ToolCalls(Vec<ToolCall>),
    /// The end.
    Finished(FinishInfo),
}

/// What the completion so far says.
pub struct ReplyView {
    /// The words.
    pub text: Seq<char>,
    /// The calls.
    pub calls: Seq<CallView>,
    /// The model that answered.
    pub model: Seq<char>,
    /// What it used up.
    pub usage: Option<TokenUsage>,
}

/// A completion as it is put together.
#[derive(Debug, PartialEq, Eq)]
pub struct Reply {
    /// The words.
    pub text: String,
    /// The calls.
    pub tool_calls: Vec<ToolCall>,
    /// The model that answered.
    pub model: String,
    /// What it used up.
    pub usage: Option<TokenUsage>,
}

impl View for Reply {
    type V = ReplyView;

    open spec fn view(&self) -> ReplyView {
        ReplyView {
            text: self.text@,
            calls: call_views(self.tool_calls@),
            model: self.model@,
            usage: self.usage,
        }
    }
}

/// A completion before anything has arrived.
pub open spec fn blank_reply() -> ReplyView {
    ReplyView { text: Seq::empty(), calls: Seq::empty(), model: Seq::empty(), usage: None }
}

/// The completion after one more piece: words are added to the words, calls
/// stand in place of earlier ones, and the end brings the model and the usage.
pub open spec fn absorbed(r: ReplyView, chunk: StreamChunk) -> ReplyView {
    match chunk {
        StreamChunk::Delta(s) => ReplyView { text: r.text + s@, ..r },
        StreamChunk::ToolCalls(calls) => ReplyView { calls: call_views(calls@), ..r },
        StreamChunk::Finished(info) => ReplyView { model: info.model@, usage: info.usage, ..r },
    }
}

impl Reply {
    /// A completion before anything has arrived.
    pub fn new() -> (r: Reply)
        ensures
            r@ == blank_reply(),
    {
        let r = Reply {
            text: String::new(),
            tool_calls: Vec::new(),
            model: String::new(),
            usage: None,
        };
        assert(call_views(r.tool_calls@) =~= Seq::<CallView>::empty());
        r
    }

    /// Takes one more piece in, and says whether it was the end.
    pub fn absorb(&mut self, chunk: StreamChunk) -> (done: bool)
        ensures
            final(self)@ == absorbed(old(self)@, chunk),
            done == (chunk is Finished),
    {
        match chunk {
            StreamChunk::Delta(s) => {
                self.text.append(s.as_str());
                false
            },
            StreamChunk::ToolCalls(calls) => {
                self.tool_calls = calls;
                false
            },
            StreamChunk::Finished(info) => {
                self.model = info.model;
                self.usage = info.usage;
                true
            },
        }
    }
}

// --- what arrived meanwhile -------------------------------------------------

/// What, if anything, arrived from the user while the turn was running.
#[derive(Debug, Clone, Copy, PartialEq, Eq, Structural)]
pub enum Interrupt {
    /// Nothing.
    Quiet,
    /// Something to take into account.
    Nudged,
    /// A wish to stop.
    Cancelled,
}

/// What arrived, of everything in the inbox. Cancellation outranks a nudge;
/// it is never downgraded.
pub open spec fn interruption(items: Seq<InboxItem>) -> Interrupt
    decreases items.len(),
{
    if items.len() == 0 {
        Interrupt::Quiet
    } else {
        let so_far = interruption(items.drop_last());
        match items.last() {
            InboxItem::Nudge(_) => if so_far is Cancelled {
                Interrupt::Cancelled
            } else {
                Interrupt::Nudged
            },
            InboxItem::Cancel => Interrupt::Cancelled,
            InboxItem::Control(_) => so_far,
        }
    }
}

/// The nudges in an inbox as messages.
pub open spec fn nudge_messages(items: Seq<InboxItem>) -> Seq<JsonView>
    decreases items.len(),
{
    if items.len() == 0 {
        Seq::empty()
    } else {
        match items.last() {
            InboxItem::Nudge(s) => nudge_messages(items.drop_last()).push(
                message("user"@, JsonView::Text(s@)),
            ),
            _ => nudge_messages(items.drop_last()),
        }
    }
}

fn drain(messages: &mut Vec<Json>, items: &Vec<InboxItem>) -> (interrupt: Interrupt)
    ensures
        trees(final(messages)@) == trees(old(messages)@) + nudge_messages(items@),
        interrupt == interruption(items@),
{
    let mut interrupt = Interrupt::Quiet;
    let ghost start = trees(messages@);
    proof {
        assert(items@.take(0) =~= Seq::<InboxItem>::empty());
        assert(start + nudge_messages(items@.take(0)) =~= start);
    }
    for i in 0..items.len()
        invariant
            start == trees(old(messages)@),
            trees(messages@) == start + nudge_messages(items@.take(i as int)),
            interrupt == interruption(items@.take(i as int)),
    {
        let ghost had = messages@;
        proof {
            assert(items@.take(i + 1).drop_last() =~= items@.take(i as int));
            assert(items@.take(i + 1).last() == items@[i as int]);
        }
        match &items[i] {
            InboxItem::Nudge(s) => {
                let m = make_message("user", Json::text(s.as_str()));
                messages.push(m);
                proof {
                    json::lemma_trees_push(had, m);
                    assert(start + nudge_messages(items@.take(i as int)).push(m@) =~= (start
                        + nudge_messages(items@.take(i as int))).push(m@));
                }
                if interrupt != Interrupt::Cancelled {
                    interrupt = Interrupt::Nudged;
                }
            },
            InboxItem::Cancel => {
                interrupt = Interrupt::Cancelled;
            },
            InboxItem::Control(_) => {},
        }
    }
    assert(items@.take(items@.len() as int) =~= items@);
    interrupt
}

// --- the turn ---------------------------------------------------------------

/// Why a turn ended.
#[derive(Debug, Clone, Copy, PartialEq, Eq, Structural)]
pub enum Stop {
    /// The model was done.
    Finished,
    /// The iterations ran out.
    MaxIterations,
    /// A completion failed.
    LlmError,
    /// The user asked it to stop.
    Cancelled,
}

/// The word a turn's end is recorded under.
pub open spec fn stop_word(stop: Stop) -> Seq<char> {
    match stop {
        Stop::Finished => "stop"@,
        Stop::MaxIterations => "max-iterations"@,
        Stop::LlmError => "llm-error"@,
        Stop::Cancelled => "cancelled"@,
    }
}

/// The word a turn's end is recorded under.
pub fn stop_label(stop: Stop) -> (r: String)
    ensures
        r@ == stop_word(stop),
{
    match stop {
        Stop::Finished => "stop".to_owned(),
        Stop::MaxIterations => "max-iterations".to_owned(),
        Stop::LlmError => "llm-error".to_owned(),
        Stop::Cancelled => "cancelled".to_owned(),
    }
}

/// What a turn is waiting for.
pub enum Phase {
    /// To be started.
    Start,
    /// The model's reply.
    Replying,
    /// The result of the call at `next`.
    Calling {
        /// The calls of this round.
        calls: Vec<ToolCall>,
        /// The one under way.
        next: usize,
    },
    /// The inbox. `spoken` says that the model asked for no calls.
    Polling {
        /// Whether the model asked for no calls.
        spoken: bool,
    },
    /// Nothing: it is over.
    Over,
}

/// What a turn is waiting for, with its calls as text.
pub enum PhaseView {
    /// To be started.
    Start,
    /// The model's reply.
    Replying,
    /// The result of one call.
    Calling {
        /// The calls of this round.
        calls: Seq<CallView>,
        /// The one under way.
        next: int,
    },
    /// The inbox.
    Polling {
        /// Whether the model asked for no calls.
        spoken: bool,
    },
    /// Nothing: it is over.
    Over,
}

impl View for Phase {
    type V = PhaseView;

    open spec fn view(&self) -> PhaseView {
        match self {
            Phase::Start => PhaseView::Start,
            Phase::Replying => PhaseView::Replying,
            Phase::Calling { calls, next } => PhaseView::Calling {
                calls: call_views(calls@),
                next: *next as int,
            },
            Phase::Polling { spoken } => PhaseView::Polling { spoken: *spoken },
            Phase::Over => PhaseView::Over,
        }
    }
}

/// A turn under way.
pub struct Turn {
    /// The session it is for.
    pub session_id: String,
    /// The model it asks.
    pub model: String,
    /// How the user asked this session to behave. Decides which tools the
    /// model is offered.
    pub mode: String,
    /// How many rounds it may take.
    pub max_iterations: u32,
    /// The conversation as the model sees it.
    pub messages: Vec<Json>,
    /// How many rounds it has taken.
    pub iterations: u32,
    /// Tokens read so far.
    pub prompt_tokens: u32,
    /// Tokens written so far.
    pub completion_tokens: u32,
    /// The tools called so far, each once.
    pub tools_used: Vec<String>,
    /// Why it ended, once it has.
    pub stopped_by: Stop,
    /// What it is waiting for.
    pub phase: Phase,
}

/// The state of a turn.
pub struct TurnView {
    /// The session it is for.
    pub session_id: Seq<char>,
    /// The model it asks.
    pub model: Seq<char>,
    /// How the user asked this session to behave.
    pub mode: Seq<char>,
    /// How many rounds it may take.
    pub max_iterations: u32,
    /// The conversation as the model sees it.
    pub messages: Seq<JsonView>,
    /// How many rounds it has taken.
    pub iterations: int,
    /// Tokens read so far.
    pub prompt_tokens: int,
    /// Tokens written so far.
    pub completion_tokens: int,
    /// The tools called so far, each once.
    pub tools_used: Seq<Seq<char>>,
    /// Why it ended, once it has.
    pub stopped_by: Stop,
    /// What it is waiting for.
    pub phase: PhaseView,
}

impl View for Turn {
    type V = TurnView;

    open spec fn view(&self) -> TurnView {
        TurnView {
            session_id: self.session_id@,
            model: self.model@,
            mode: self.mode@,
            max_iterations: self.max_iterations,
            messages: trees(self.messages@),
            iterations: self.iterations as int,
            prompt_tokens: self.prompt_tokens as int,
            completion_tokens: self.completion_tokens as int,
            tools_used: texts(self.tools_used@),
            stopped_by: self.stopped_by,
            phase: self.phase@,
        }
    }
}

/// What just happened to a turn.
pub enum Event {
    /// It was started.
    Begin,
    /// The model replied.
    Replied(Reply),
    /// The completion failed, with the message that says why.
    Failed(String),
    /// The call under way was answered, or failed, with what the model is to read.
    Answered(Result<String, String>),
    /// This was in the inbox.
    Inbox(Vec<InboxItem>),
}

/// What a turn wants done next.
#[derive(Debug, PartialEq, Eq)]
pub enum Action {
    /// Ask the model for a completion.
    Complete,
    /// Call a tool.
    Call(ToolCall),
    /// Look into the inbox.
    Poll,
    /// Note in the log that the iterations ran out, and end the turn.
    NoteAndFinish(String),
    /// End the turn.
    Finish,
    /// End the turn with an error.
    Fail(String),
}

/// What a turn wants done next, as text.
pub enum ActionView {
    /// Ask the model for a completion.
    Complete,
    /// Call a tool.
    Call(CallView),
    /// Look into the inbox.
    Poll,
    /// Note in the log that the iterations ran out, and end the turn.
    NoteAndFinish(Seq<char>),
    /// End the turn.
    Finish,
    /// End the turn with an error.
    Fail(Seq<char>),
}

impl View for Action {
    type V = ActionView;

    open spec fn view(&self) -> ActionView {
        match self {
            Action::Complete => ActionView::Complete,
            Action::Call(c) => ActionView::Call(c@),
            Action::Poll => ActionView::Poll,
            Action::NoteAndFinish(s) => ActionView::NoteAndFinish(s@),
            Action::Finish => ActionView::Finish,
            Action::Fail(s) => ActionView::Fail(s@),
        }
    }
}

/// Whether a turn is in a state that its own steps lead to.
pub open spec fn turn_ok(t: TurnView) -> bool {
    &&& t.max_iterations <= ABSOLUTE_MAX_ITERATIONS
    &&& 0 <= t.iterations <= t.max_iterations
    &&& t.phase matches PhaseView::Calling { calls, next } ==> 0 <= next < calls.len()
    &&& t.tools_used.no_duplicates()
}

/// Whether an event is one that the turn is waiting for.
pub open spec fn expects(t: TurnView, event: Event) -> bool {
    match event {
        Event::Begin => t.phase is Start,
        Event::Replied(reply) => {
            &&& t.phase is Replying
            &&& reply.usage matches Some(u) ==> t.prompt_tokens + u.prompt_tokens <= u32::MAX
                && t.completion_tokens + u.completion_tokens <= u32::MAX
        },
        Event::Failed(_) => t.phase is Replying,
        Event::Answered(_) => t.phase is Calling,
        Event::Inbox(_) => t.phase is Polling,
    }
}

/// The turn at the beginning of a round, or at its end if it has had its
/// rounds.
pub open spec fn round(t: TurnView) -> (TurnView, ActionView) {
    if t.iterations >= t.max_iterations {
        (
            TurnView { stopped_by: Stop::MaxIterations, phase: PhaseView::Over, ..t },
            ActionView::NoteAndFinish(
                "stopped after "@ + decimal(t.max_iterations as nat) + " iterations"@,
            ),
        )
    } else {
        (
            TurnView { iterations: t.iterations + 1, phase: PhaseView::Replying, ..t },
            ActionView::Complete,
        )
    }
}

/// The turn as the call at `next` is made.
pub open spec fn calling(t: TurnView, calls: Seq<CallView>, next: int) -> (TurnView, ActionView) {
    (
        TurnView {
            tools_used: if t.tools_used.contains(calls[next].name) {
                t.tools_used
            } else {
                t.tools_used.push(calls[next].name)
            },
            phase: PhaseView::Calling { calls, next },
            ..t
        },
        ActionView::Call(calls[next]),
    )
}

/// The turn after a reply: what the model said is part of the conversation,
/// and what it used is counted.
pub open spec fn heard(t: TurnView, reply: ReplyView) -> TurnView {
    TurnView {
        messages: t.messages.push(assistant_json(reply.text, reply.calls)),
        prompt_tokens: t.prompt_tokens + (match reply.usage {
            Some(u) => u.prompt_tokens as int,
            None => 0,
        }),
        completion_tokens: t.completion_tokens + (match reply.usage {
            Some(u) => u.completion_tokens as int,
            None => 0,
        }),
        ..t
    }
}

/// What the model reads of a call: its answer, or why there is none.
pub open spec fn answer_text(outcome: Result<String, String>) -> Seq<char> {
    match outcome {
        Ok(s) => s@,
        Err(e) => e@,
    }
}

fn answer_words(outcome: &Result<String, String>) -> (r: String)
    ensures
        r@ == answer_text(*outcome),
{
    match outcome {
        Ok(s) => s.clone(),
        Err(e) => e.clone(),
    }
}

/// What becomes of a turn, and what it wants done, when something happens.
pub open spec fn stepped(t: TurnView, event: Event) -> (TurnView, ActionView) {
    match event {
        Event::Begin => round(t),
        Event::Failed(e) => (
            TurnView { stopped_by: Stop::LlmError, phase: PhaseView::Over, ..t },
            ActionView::Fail(e@),
        ),
        Event::Replied(reply) => {
            let after = heard(t, reply@);
            if reply@.calls.len() == 0 {
                // The model is done talking. Only a nudge that landed while it
                // was finishing justifies another round trip.
                (
                    TurnView { phase: PhaseView::Polling { spoken: true }, ..after },
                    ActionView::Poll,
                )
            } else {
                calling(after, reply@.calls, 0)
            }
        },
        Event::Answered(outcome) => {
            let calls = t.phase->Calling_calls;
            let next = t.phase->Calling_next;
            let after = TurnView {
                messages: t.messages.push(tool_message(calls[next].id, answer_text(outcome))),
                ..t
            };
            if next + 1 < calls.len() {
                calling(after, calls, next + 1)
            } else {
                (
                    TurnView { phase: PhaseView::Polling { spoken: false }, ..after },
                    ActionView::Poll,
                )
            }
        },
        Event::Inbox(items) => {
            let spoken = t.phase->Polling_spoken;
            let after = TurnView { messages: t.messages + nudge_messages(items@), ..t };
            match interruption(items@) {
                Interrupt::Cancelled => (
                    TurnView { stopped_by: Stop::Cancelled, phase: PhaseView::Over, ..after },
                    ActionView::Finish,
                ),
                Interrupt::Quiet => if spoken {
                    (
                        TurnView { stopped_by: Stop::Finished, phase: PhaseView::Over, ..after },
                        ActionView::Finish,
                    )
                } else {
                    round(after)
                },
                Interrupt::Nudged => round(after),
            }
        },
    }
}

/// A turn about to start.
pub open spec fn fresh_turn(
    session_id: Seq<char>,
    chosen_model: Option<Seq<char>>,
    chosen_mode: Option<Seq<char>>,
    model_setting: Option<Seq<char>>,
    usual_model: Seq<char>,
    iterations_setting: Option<Seq<char>>,
    messages: Seq<JsonView>,
) -> TurnView {
    let wanted = count_or(iterations_setting, DEFAULT_MAX_ITERATIONS);
    TurnView {
        session_id,
        model: choice_or(chosen_model, setting_or(model_setting, usual_model)),
        mode: choice_or(chosen_mode, tools::DEFAULT_MODE@),
        max_iterations: if wanted < ABSOLUTE_MAX_ITERATIONS {
            wanted
        } else {
            ABSOLUTE_MAX_ITERATIONS
        },
        messages,
        iterations: 0,
        prompt_tokens: 0,
        completion_tokens: 0,
        tools_used: Seq::empty(),
        stopped_by: Stop::Finished,
        phase: PhaseView::Start,
    }
}

impl Turn {
    /// A turn about to start. The session's own choices win over the harness
    /// defaults.
    pub fn new(
        session_id: &str,
        chosen_model: &Option<String>,
        chosen_mode: &Option<String>,
        model_setting: &Option<String>,
        usual_model: &str,
        iterations_setting: &Option<String>,
        messages: Vec<Json>,
    ) -> (t: Turn)
        ensures
            t@ == fresh_turn(
                session_id@,
                text_of(*chosen_model),
                text_of(*chosen_mode),
                text_of(*model_setting),
                usual_model@,
                text_of(*iterations_setting),
                trees(messages@),
            ),
            turn_ok(t@),
    {
        let wanted: u32 = config_u32(iterations_setting, DEFAULT_MAX_ITERATIONS);
        let fallback = config_str(model_setting, usual_model);
        let t = Turn {
            session_id: session_id.to_owned(),
            model: choose_or(chosen_model, fallback.as_str()),
            mode: choose_or(chosen_mode, tools::DEFAULT_MODE),
            max_iterations: if wanted < ABSOLUTE_MAX_ITERATIONS {
                wanted
            } else {
                ABSOLUTE_MAX_ITERATIONS
            },
            messages,
            iterations: 0,
            prompt_tokens: 0,
            completion_tokens: 0,
            tools_used: Vec::new(),
            stopped_by: Stop::Finished,
            phase: Phase::Start,
        };
        assert(t@.tools_used =~= Seq::<Seq<char>>::empty());
        t
    }

    fn begin_round(&mut self) -> (action: Action)
        requires
            old(self).iterations <= old(self).max_iterations <= ABSOLUTE_MAX_ITERATIONS,
        ensures
            (final(self)@, action@) == round(old(self)@),
    {
        if self.iterations >= self.max_iterations {
            self.stopped_by = Stop::MaxIterations;
            self.phase = Phase::Over;
            let note = "stopped after ".to_owned().concat(
                text::number(self.max_iterations as u64).as_str(),
            ).concat(" iterations");
            return Action::NoteAndFinish(note);
        }
        self.iterations = self.iterations + 1;
        self.phase = Phase::Replying;
        Action::Complete
    }

    fn make_call(&mut self, calls: Vec<ToolCall>, next: usize) -> (action: Action)
        requires
            next < calls@.len(),
        ensures
            (final(self)@, action@) == calling(old(self)@, call_views(calls@), next as int),
    {
        let call = copy_call(&calls[next]);
        assert(call_views(calls@)[next as int] == call@);
        if !text::listed(&self.tools_used, call.name.as_str()) {
            let ghost had = self.tools_used@;
            let name = call.name.clone();
            self.tools_used.push(name);
            proof {
                text::lemma_texts_push(had, name);
            }
        }
        self.phase = Phase::Calling { calls, next };
        Action::Call(call)
    }

    fn say(&mut self, m: Json)
        ensures
            final(self)@ == (TurnView { messages: old(self)@.messages.push(m@), ..old(self)@ }),
            final(self).phase == old(self).phase,
    {
        proof {
            json::lemma_trees_push(self.messages@, m);
        }
        self.messages.push(m);
    }

    /// Takes what just happened and says what to do next.
    pub fn step(&mut self, event: Event) -> (action: Action)
        requires
            turn_ok(old(self)@),
            expects(old(self)@, event),
        ensures
            (final(self)@, action@) == stepped(old(self)@, event),
            turn_ok(final(self)@),
    {
        match event {
            Event::Begin => self.begin_round(),
            Event::Failed(e) => {
                self.stopped_by = Stop::LlmError;
                self.phase = Phase::Over;
                Action::Fail(e)
            },
            Event::Replied(reply) => {
                self.say(assistant_message(reply.text.as_str(), &reply.tool_calls));
                if let Some(u) = reply.usage {
                    self.prompt_tokens = self.prompt_tokens + u.prompt_tokens;
                    self.completion_tokens = self.completion_tokens + u.completion_tokens;
                }
                if reply.tool_calls.len() == 0 {
                    self.phase = Phase::Polling { spoken: true };
                    return Action::Poll;
                }
                self.make_call(reply.tool_calls, 0)
            },
            Event::Answered(outcome) => {
                let content = answer_words(&outcome);
                let mut phase = Phase::Over;
                std::mem::swap(&mut phase, &mut self.phase);
                match phase {
                    Phase::Calling { calls, next } => {
                        assert(call_views(calls@)[next as int] == calls@[next as int]@);
                        self.say(make_tool_message(calls[next].id.as_str(), content.as_str()));
                        assert(next < calls@.len());
                        if next < calls.len() - 1 {
                            self.make_call(calls, next + 1)
                        } else {
                            self.phase = Phase::Polling { spoken: false };
                            Action::Poll
                        }
                    },
                    _ => Action::Finish,
                }
            },
            Event::Inbox(items) => {
                let spoken = match &self.phase {
                    Phase::Polling { spoken } => *spoken,
                    _ => false,
                };
                let interrupt = drain(&mut self.messages, &items);
                match interrupt {
                    Interrupt::Cancelled => {
                        self.stopped_by = Stop::Cancelled;
                        self.phase = Phase::Over;
                        Action::Finish
                    },
                    Interrupt::Quiet => if spoken {
                        self.stopped_by = Stop::Finished;
                        self.phase = Phase::Over;
                        Action::Finish
                    } else {
                        self.begin_round()
                    },
                    Interrupt::Nudged => self.begin_round(),
                }
            },
        }
    }

    /// The request for the next completion.
    pub fn request(&self, definitions: Vec<Json>) -> (r: String)
        ensures
            r@ == json::compact_text(completion_request(self@, trees(definitions@))),
    {
        let mut messages: Vec<Json> = Vec::new();
        for i in 0..self.messages.len()
            invariant
                trees(messages@) == trees(self.messages@.take(i as int)),
        {
            let ghost had = messages@;
            let m = self.messages[i].copy();
            messages.push(m);
            proof {
                json::lemma_trees_push(had, m);
                assert(self.messages@.take(i + 1).drop_last() =~= self.messages@.take(i as int));
                assert(self.messages@.take(i + 1).last() == self.messages@[i as int]);
            }
        }
        assert(self.messages@.take(self.messages@.len() as int) =~= self.messages@);
        Json::object().with("model", Json::text(self.model.as_str())).with(
            "messages",
            Json::Array(messages),
        ).with("tools", Json::Array(definitions)).to_text()
    }
}

/// The request for a completion: the model, the conversation, and the tools on
/// offer.
pub open spec fn completion_request(t: TurnView, definitions: Seq<JsonView>) -> JsonView {
    JsonView::Object(
        map![
            "model"@ => JsonView::Text(t.model),
            "messages"@ => JsonView::Array(t.messages),
            "tools"@ => JsonView::Array(definitions),
        ],
    )
}

// --- the log ----------------------------------------------------------------

/// What an entry of the log says.
pub enum EntryView {
    /// The model answered.
    Assistant {
        /// The words.
        content: Seq<char>,
        /// The calls it asks for.
        calls: Seq<CallView>,
        /// The model that answered.
        model: Seq<char>,
        /// What it used up.
        usage: Option<TokenUsage>,
    },
    /// A tool was called.
    Invocation(CallView),
    /// A tool answered.
    Outcome {
        /// The id of the call.
        call_id: Seq<char>,
        /// The tool's name.
        name: Seq<char>,
        /// Whether it worked.
        ok: bool,
        /// What it said.
        content: Seq<char>,
    },
    /// Something was noted.
    Note(Seq<char>),
    /// Something that no turn writes.
    Other,
}

/// What an event of the log says.
pub open spec fn entry_of(event: SessionEvent) -> EntryView {
    match event {
        SessionEvent::AssistantMessage(msg) => EntryView::Assistant {
            content: msg.content@,
            calls: call_views(msg.tool_calls@),
            model: msg.model@,
            usage: msg.usage,
        },
        SessionEvent::ToolInvocation(call) => EntryView::Invocation(call@),
        SessionEvent::ToolResult(out) => EntryView::Outcome {
            call_id: out.call_id@,
            name: out.name@,
            ok: out.ok,
            content: out.content@,
        },
        SessionEvent::SystemNote(s) => EntryView::Note(s@),
        _ => EntryView::Other,
    }
}

/// What the events of a list say.
pub open spec fn entries(events: Seq<SessionEvent>) -> Seq<EntryView> {
    events.map_values(|e: SessionEvent| entry_of(e))
}

/// What a turn writes to the log for what it wants done next: the call it makes,
/// or that its rounds ran out.
pub open spec fn announced(action: ActionView) -> Seq<EntryView> {
    match action {
        ActionView::Call(call) => seq![EntryView::Invocation(call)],
        ActionView::NoteAndFinish(s) => seq![EntryView::Note(s)],
        _ => Seq::empty(),
    }
}

/// What a turn writes to the log of what happened: what the model said, and what
/// a tool answered.
pub open spec fn witnessed(t: TurnView, event: Event) -> Seq<EntryView> {
    match event {
        Event::Replied(reply) => seq![
            EntryView::Assistant {
                content: reply@.text,
                calls: reply@.calls,
                model: reply@.model,
                usage: reply@.usage,
            },
        ],
        Event::Answered(outcome) => {
            let call = t.phase->Calling_calls[t.phase->Calling_next];
            seq![
                EntryView::Outcome {
                    call_id: call.id,
                    name: call.name,
                    ok: outcome is Ok,
                    content: answer_text(outcome),
                },
            ]
        },
        _ => Seq::empty(),
    }
}

/// What a turn writes to the log when something happens. What happened is
/// written before anything is done about it, so that the log is truthful even if
/// the next call traps.
pub open spec fn logged(t: TurnView, event: Event) -> Seq<EntryView> {
    witnessed(t, event) + announced(stepped(t, event).1)
}

fn copy_calls(calls: &Vec<ToolCall>) -> (r: Vec<ToolCall>)
    ensures
        call_views(r@) == call_views(calls@),
{
    let mut out: Vec<ToolCall> = Vec::new();
    assert(call_views(out@) =~= call_views(calls@).take(0));
    for i in 0..calls.len()
        invariant
            call_views(out@) == call_views(calls@).take(i as int),
    {
        let ghost had = out@;
        let c = copy_call(&calls[i]);
        out.push(c);
        proof {
            assert(call_views(calls@)[i as int] == calls@[i as int]@);
            assert(call_views(out@) =~= call_views(had).push(c@));
            assert(call_views(calls@).take(i + 1) =~= call_views(calls@).take(i as int).push(c@));
        }
    }
    assert(call_views(calls@).take(calls@.len() as int) =~= call_views(calls@));
    out
}

impl Turn {
    /// Takes what just happened, and says what to write to the log and what to do
    /// next.
    pub fn advance(&mut self, event: Event) -> (r: (Vec<SessionEvent>, Action))
        requires
            turn_ok(old(self)@),
            expects(old(self)@, event),
        ensures
            (final(self)@, r.1@) == stepped(old(self)@, event),
            entries(r.0@) == logged(old(self)@, event),
            turn_ok(final(self)@),
    {
        let ghost before = self@;
        let ghost what = event;
        let mut log: Vec<SessionEvent> = Vec::new();
        match &event {
            Event::Replied(reply) => {
                let msg = AssistantMsg {
                    content: reply.text.clone(),
                    tool_calls: copy_calls(&reply.tool_calls),
                    model: reply.model.clone(),
                    usage: reply.usage,
                };
                log.push(SessionEvent::AssistantMessage(msg));
            },
            Event::Answered(outcome) => {
                if let Phase::Calling { calls, next } = &self.phase {
                    assert(call_views(calls@)[*next as int] == calls@[*next as int]@);
                    let out = ToolOutcome {
                        call_id: calls[*next].id.clone(),
                        name: calls[*next].name.clone(),
                        ok: outcome.is_ok(),
                        content: answer_words(outcome),
                    };
                    log.push(SessionEvent::ToolResult(out));
                }
            },
            _ => {},
        }
        let ghost first = log@;
        let action = self.step(event);
        match &action {
            Action::Call(call) => {
                log.push(SessionEvent::ToolInvocation(copy_call(call)));
            },
            Action::NoteAndFinish(note) => {
                log.push(SessionEvent::SystemNote(note.clone()));
            },
            _ => {},
        }
        proof {
            assert(entries(first) =~= witnessed(before, what));
            assert(entries(log@) =~= logged(before, what));
        }
        (log, action)
    }
}

// --- laws -------------------------------------------------------------------

/// The nudges in an inbox as the log has them.
pub open spec fn nudge_events(items: Seq<InboxItem>) -> Seq<SessionEvent>
    decreases items.len(),
{
    if items.len() == 0 {
        Seq::empty()
    } else {
        match items.last() {
            InboxItem::Nudge(s) => nudge_events(items.drop_last()).push(SessionEvent::Nudge(s)),
            _ => nudge_events(items.drop_last()),
        }
    }
}

/// What the log holds of what arrived: each nudge, as an event of its own.
pub open spec fn arrived(event: Event) -> Seq<SessionEvent> {
    match event {
        Event::Inbox(items) => nudge_events(items@),
        _ => Seq::empty(),
    }
}

/// What the conversation rebuilt from the log has over the one in the turn: the
/// note that its rounds ran out, which is written as the turn ends.
pub open spec fn parting(action: ActionView) -> Seq<JsonView> {
    match action {
        ActionView::NoteAndFinish(s) => seq![message("system"@, JsonView::Text(s))],
        _ => Seq::empty(),
    }
}

/// A turn holds nothing that the log does not: at every step, the conversation
/// rebuilt from the log is the one the turn carries. So a crash, a swap or a
/// restart costs nothing.
pub proof fn law_the_log_rebuilds_the_conversation(
    prompt: Seq<char>,
    log: Seq<SessionEvent>,
    t: TurnView,
    event: Event,
    written: Seq<SessionEvent>,
)
    requires
        turn_ok(t),
        expects(t, event),
        t.messages == rehydrated(prompt, log),
        entries(written) == logged(t, event),
    ensures
        rehydrated(prompt, log + arrived(event) + written) == stepped(t, event).0.messages
            + parting(stepped(t, event).1),
{
    let after = stepped(t, event).0;
    let action = stepped(t, event).1;
    let lead = seq![message("system"@, JsonView::Text(prompt))];
    let now = log_messages(log + arrived(event));
    lemma_log_messages_add(log + arrived(event), written);
    lemma_log_messages_add(log, arrived(event));
    match event {
        Event::Inbox(items) => {
            lemma_nudge_events(items@);
            assert(lead + now =~= t.messages + nudge_messages(items@));
        },
        _ => {
            assert(log_messages(arrived(event)) =~= Seq::<JsonView>::empty());
            assert(lead + now =~= t.messages);
        },
    }
    let tail = announced(action);
    let head = witnessed(t, event);
    assert(entries(written).len() == written.len());
    let first = written.take(head.len() as int);
    let last = written.skip(head.len() as int);
    assert(first + last =~= written);
    lemma_log_messages_add(first, last);
    assert forall|i: int| 0 <= i < head.len() implies entries(first)[i] == head[i] by {
        assert(entries(written)[i] == (head + tail)[i]);
    }
    assert(entries(first) =~= head);
    assert forall|i: int| 0 <= i < tail.len() implies entries(last)[i] == tail[i] by {
        assert(entries(written)[head.len() + i] == (head + tail)[head.len() + i]);
    }
    assert(entries(last) =~= tail);
    match event {
        Event::Replied(reply) => {
            lemma_one_entry(first, head[0]);
            assert(log_messages(first) =~= seq![
                assistant_json(reply@.text, reply@.calls),
            ]);
        },
        Event::Answered(outcome) => {
            lemma_one_entry(first, head[0]);
        },
        _ => {
            assert(first =~= Seq::<SessionEvent>::empty());
        },
    }
    match action {
        ActionView::Call(_) => {
            lemma_one_entry(last, tail[0]);
        },
        ActionView::NoteAndFinish(_) => {
            lemma_one_entry(last, tail[0]);
        },
        _ => {
            assert(last =~= Seq::<SessionEvent>::empty());
        },
    }
    assert(lead + (now + (log_messages(first) + log_messages(last))) =~= after.messages + parting(
        action,
    ));
}

/// What a list of one entry stands for.
proof fn lemma_one_entry(events: Seq<SessionEvent>, e: EntryView)
    requires
        entries(events) == seq![e],
        !(e is Other),
    ensures
        log_messages(events) == match entry_message(e) {
            Some(m) => seq![m],
            None => Seq::empty(),
        },
{
    assert(entries(events).len() == 1);
    assert(entries(events)[0] == entry_of(events[0]));
    assert(events.drop_last() =~= Seq::<SessionEvent>::empty());
    assert(log_messages(events.drop_last()) == Seq::<JsonView>::empty());
    assert(events.last() == events[0]);
}

/// The message an entry stands for.
spec fn entry_message(e: EntryView) -> Option<JsonView> {
    match e {
        EntryView::Assistant { content, calls, .. } => Some(assistant_json(content, calls)),
        EntryView::Outcome { call_id, content, .. } => Some(tool_message(call_id, content)),
        EntryView::Note(s) => Some(message("system"@, JsonView::Text(s))),
        _ => None,
    }
}

proof fn lemma_log_messages_add(a: Seq<SessionEvent>, b: Seq<SessionEvent>)
    ensures
        log_messages(a + b) == log_messages(a) + log_messages(b),
    decreases b.len(),
{
    if b.len() == 0 {
        assert(a + b =~= a);
        assert(log_messages(a) + log_messages(b) =~= log_messages(a));
    } else {
        assert((a + b).drop_last() =~= a + b.drop_last());
        assert((a + b).last() == b.last());
        lemma_log_messages_add(a, b.drop_last());
        if let Some(m) = event_message(b.last()) {
            assert((log_messages(a) + log_messages(b.drop_last())).push(m) =~= log_messages(a)
                + log_messages(b.drop_last()).push(m));
        }
    }
}

proof fn lemma_nudge_events(items: Seq<InboxItem>)
    ensures
        log_messages(nudge_events(items)) == nudge_messages(items),
    decreases items.len(),
{
    if items.len() > 0 {
        let rest = items.drop_last();
        lemma_nudge_events(rest);
        if let InboxItem::Nudge(s) = items.last() {
            let e = SessionEvent::Nudge(s);
            assert(nudge_events(rest).push(e).drop_last() =~= nudge_events(rest));
        }
    } else {
        assert(log_messages(Seq::<SessionEvent>::empty()) == Seq::<JsonView>::empty());
    }
}

/// No step takes a turn past its rounds, and no turn has more rounds than the
/// absolute ceiling.
pub proof fn law_rounds_are_bounded(t: TurnView, event: Event)
    requires
        turn_ok(t),
        expects(t, event),
    ensures
        turn_ok(stepped(t, event).0),
        stepped(t, event).0.max_iterations == t.max_iterations,
        t.iterations <= stepped(t, event).0.iterations <= t.iterations + 1,
        stepped(t, event).0.iterations <= ABSOLUTE_MAX_ITERATIONS,
        stepped(t, event).1 is Complete <==> stepped(t, event).0.iterations == t.iterations + 1,
{
}

/// A turn names no tool twice among those it used, however often it calls one,
/// and it forgets none.
pub proof fn law_a_turn_names_no_tool_twice(t: TurnView, event: Event, name: Seq<char>)
    requires
        turn_ok(t),
        expects(t, event),
    ensures
        stepped(t, event).0.tools_used.no_duplicates(),
        t.tools_used.contains(name) ==> stepped(t, event).0.tools_used.contains(name),
{
    let used = stepped(t, event).0.tools_used;
    if t.tools_used.contains(name) && used.len() > t.tools_used.len() {
        let i = choose|i: int| 0 <= i < t.tools_used.len() && t.tools_used[i] == name;
        assert(used[i] == name);
    }
}

/// The conversation only ever grows.
pub proof fn law_the_conversation_only_grows(t: TurnView, event: Event)
    requires
        turn_ok(t),
        expects(t, event),
    ensures
        t.messages.len() <= stepped(t, event).0.messages.len(),
        stepped(t, event).0.messages.take(t.messages.len() as int) == t.messages,
{
    assert(stepped(t, event).0.messages.take(t.messages.len() as int) =~= t.messages);
}

/// A cancellation in the inbox ends the turn as cancelled, whatever else is
/// there.
pub proof fn law_cancellation_outranks_everything(items: Seq<InboxItem>, i: int)
    requires
        0 <= i < items.len(),
        items[i] is Cancel,
    ensures
        interruption(items) is Cancelled,
    decreases items.len(),
{
    if i < items.len() - 1 {
        law_cancellation_outranks_everything(items.drop_last(), i);
    }
}

/// Without a cancellation in the inbox a turn is never cancelled.
pub proof fn law_only_a_cancellation_cancels(items: Seq<InboxItem>)
    requires
        forall|i: int| 0 <= i < items.len() ==> !(#[trigger] items[i] is Cancel),
    ensures
        !(interruption(items) is Cancelled),
    decreases items.len(),
{
    if items.len() > 0 {
        let head = items.drop_last();
        assert forall|i: int| 0 <= i < head.len() implies !(#[trigger] head[i] is Cancel) by {
            assert(head[i] == items[i]);
        }
        law_only_a_cancellation_cancels(head);
        assert(!(items[items.len() - 1] is Cancel));
    }
}

/// A failed completion ends the turn with its error and changes nothing in the
/// conversation.
pub proof fn law_a_failed_completion_ends_the_turn(t: TurnView, e: String)
    ensures
        stepped(t, Event::Failed(e)).1 == ActionView::Fail(e@),
        stepped(t, Event::Failed(e)).0.messages == t.messages,
        stepped(t, Event::Failed(e)).0.phase is Over,
{
}

// --- what a reply comes to --------------------------------------------------

/// A completion after some pieces.
pub open spec fn reply_after(chunks: Seq<StreamChunk>) -> ReplyView
    decreases chunks.len(),
{
    if chunks.len() == 0 {
        blank_reply()
    } else {
        absorbed(reply_after(chunks.drop_last()), chunks.last())
    }
}

/// The words of a piece.
pub open spec fn words_of(chunk: StreamChunk) -> Seq<char> {
    match chunk {
        StreamChunk::Delta(s) => s@,
        _ => Seq::empty(),
    }
}

/// The words of all of some pieces, in order.
pub open spec fn all_words(chunks: Seq<StreamChunk>) -> Seq<char> {
    chunks.map_values(|c: StreamChunk| words_of(c)).flatten()
}

/// However a reply is streamed, its words are the words of all its pieces, in order,
/// and none is lost or told twice.
pub proof fn law_a_reply_is_all_of_its_pieces(chunks: Seq<StreamChunk>)
    ensures
        reply_after(chunks).text == all_words(chunks),
    decreases chunks.len(),
{
    let each = chunks.map_values(|c: StreamChunk| words_of(c));
    if chunks.len() > 0 {
        let rest = chunks.drop_last();
        let before = rest.map_values(|c: StreamChunk| words_of(c));
        law_a_reply_is_all_of_its_pieces(rest);
        assert(each.drop_last() =~= before);
        assert(each =~= before.push(words_of(chunks.last())));
        before.lemma_flatten_push(words_of(chunks.last()));
        assert(all_words(rest) + Seq::<char>::empty() =~= all_words(rest));
    }
}

/// The calls of a reply are those of the last piece that brought any, and its model
/// and usage those that its end brought. Before such a piece there are none.
pub proof fn law_a_reply_ends_with_what_came_last(chunks: Seq<StreamChunk>, i: int)
    requires
        0 <= i < chunks.len(),
    ensures
        (chunks[i] matches StreamChunk::ToolCalls(calls) && (forall|j: int|
            i < j < chunks.len() ==> !(#[trigger] chunks[j] is ToolCalls))) ==> reply_after(
            chunks,
        ).calls == call_views(chunks[i]->ToolCalls_0@),
        (chunks[i] matches StreamChunk::Finished(info) && (forall|j: int|
            i < j < chunks.len() ==> !(#[trigger] chunks[j] is Finished))) ==> reply_after(
            chunks,
        ).model == chunks[i]->Finished_0.model@ && reply_after(chunks).usage
            == chunks[i]->Finished_0.usage,
        (forall|j: int| 0 <= j < chunks.len() ==> !(#[trigger] chunks[j] is ToolCalls))
            ==> reply_after(chunks).calls.len() == 0,
    decreases chunks.len(),
{
    let rest = chunks.drop_last();
    assert forall|j: int| 0 <= j < rest.len() implies rest[j] == #[trigger] chunks[j] by {}
    let last = chunks[chunks.len() - 1];
    if rest.len() > 0 {
        law_a_reply_ends_with_what_came_last(
            rest,
            if i < rest.len() {
                i
            } else {
                0
            },
        );
    } else {
        assert(reply_after(rest).calls.len() == 0);
    }
}

// --- what a round comes to --------------------------------------------------

proof fn lemma_message_fields(role: Seq<char>, content: JsonView)
    ensures
        json::field(message(role, content), "role"@) == Some(JsonView::Text(role)),
        json::field(message(role, content), "content"@) == Some(content),
{
    reveal_strlit("role");
    reveal_strlit("content");
    assert("role"@.len() == 4 && "content"@.len() == 7);
}

proof fn lemma_tool_message_fields(id: Seq<char>, content: Seq<char>)
    ensures
        json::text_field(tool_message(id, content), "role"@) == Some("tool"@),
        json::text_field(tool_message(id, content), "tool_call_id"@) == Some(id),
        json::text_field(tool_message(id, content), "content"@) == Some(content),
{
    reveal_strlit("role");
    reveal_strlit("content");
    reveal_strlit("tool_call_id");
    assert("role"@.len() == 4 && "content"@.len() == 7 && "tool_call_id"@.len() == 12);
}

/// Whether a message is what the model said, with the calls it asked for, each under
/// its id, with its name and its arguments.
pub open spec fn repeats(m: JsonView, content: Seq<char>, calls: Seq<CallView>) -> bool {
    &&& json::text_field(m, "role"@) == Some("assistant"@)
    &&& json::text_field(m, "content"@) == Some(content)
    &&& calls.len() == 0 ==> json::field(m, "tool_calls"@) is None
    &&& calls.len() > 0 ==> (json::array_field(m, "tool_calls"@) matches Some(items)
        && items.len() == calls.len() && (forall|i: int|
        0 <= i < calls.len() ==> repeats_call(#[trigger] items[i], calls[i])))
}

/// Whether a document repeats a call.
pub open spec fn repeats_call(item: JsonView, call: CallView) -> bool {
    &&& json::text_field(item, "id"@) == Some(call.id)
    &&& json::text_field(item, "type"@) == Some("function"@)
    &&& json::field(item, "function"@) matches Some(f) && json::text_field(f, "name"@) == Some(
        call.name,
    ) && json::text_field(f, "arguments"@) == Some(call.arguments_json)
}

proof fn lemma_assistant_repeats(content: Seq<char>, calls: Seq<CallView>)
    ensures
        repeats(assistant_json(content, calls), content, calls),
{
    reveal_strlit("role");
    reveal_strlit("content");
    reveal_strlit("tool_calls");
    assert("role"@.len() == 4 && "content"@.len() == 7 && "tool_calls"@.len() == 10);
    let m = assistant_json(content, calls);
    if calls.len() > 0 {
        let items = calls.map_values(|c: CallView| call_json(c));
        assert(json::array_field(m, "tool_calls"@) == Some(items));
        assert forall|i: int| 0 <= i < calls.len() implies repeats_call(
            #[trigger] items[i],
            calls[i],
        ) by {
            lemma_call_repeats(calls[i]);
        }
    }
}

proof fn lemma_call_repeats(call: CallView)
    ensures
        repeats_call(call_json(call), call),
{
    reveal_strlit("id");
    reveal_strlit("type");
    reveal_strlit("function");
    reveal_strlit("name");
    reveal_strlit("arguments");
    assert("id"@.len() == 2 && "type"@.len() == 4 && "function"@.len() == 8);
    assert("name"@.len() == 4 && "arguments"@.len() == 9);
}

/// A turn after a reply and the answers to some of the calls it asked for.
pub open spec fn after_answers(
    t: TurnView,
    reply: Reply,
    answers: Seq<Result<String, String>>,
) -> (TurnView, ActionView)
    decreases answers.len(),
{
    if answers.len() == 0 {
        stepped(t, Event::Replied(reply))
    } else {
        stepped(after_answers(t, reply, answers.drop_last()).0, Event::Answered(answers.last()))
    }
}

/// What the model reads of a call, whether it worked or not.
pub open spec fn told(answer: Result<String, String>) -> Seq<char> {
    if answer is Ok {
        answer->Ok_0@
    } else {
        answer->Err_0@
    }
}

/// In one round every call that the model asked for is made once, in the order it
/// asked; then the inbox is looked into. The conversation gains what the model said,
/// with its calls, and then each answer under the id of its own call, and nothing
/// else. What the reply used up is counted once.
pub proof fn law_a_round_makes_every_call_in_order(
    t: TurnView,
    reply: Reply,
    answers: Seq<Result<String, String>>,
    j: int,
)
    requires
        t.phase is Replying,
        answers.len() <= reply@.calls.len(),
        0 <= j < answers.len() || j == 0,
    ensures
        ({
            let (after, action) = after_answers(t, reply, answers);
            let calls = reply@.calls;
            let n = t.messages.len();
            let k = answers.len();
            &&& action == if k < calls.len() {
                ActionView::Call(calls[k as int])
            } else {
                ActionView::Poll
            }
            &&& k < calls.len() ==> after.phase == PhaseView::Calling { calls, next: k as int }
            &&& k == calls.len() ==> after.phase == PhaseView::Polling { spoken: k == 0 }
            &&& after.messages.len() == n + 1 + k
            &&& after.messages.take(n as int) == t.messages
            &&& repeats(after.messages[n as int], reply@.text, calls)
            &&& j < k ==> json::text_field(after.messages[n + 1 + j], "role"@) == Some("tool"@)
                && json::text_field(after.messages[n + 1 + j], "tool_call_id"@) == Some(
                calls[j].id,
            ) && json::text_field(after.messages[n + 1 + j], "content"@) == Some(told(answers[j]))
            &&& j < k || j < calls.len() ==> after.tools_used.contains(calls[j].name)
            &&& reply.usage matches Some(u) ==> after.prompt_tokens == t.prompt_tokens
                + u.prompt_tokens && after.completion_tokens == t.completion_tokens
                + u.completion_tokens
            &&& reply.usage is None ==> after.prompt_tokens == t.prompt_tokens
                && after.completion_tokens == t.completion_tokens
            &&& after.iterations == t.iterations
            &&& after.max_iterations == t.max_iterations
            &&& after.session_id == t.session_id
            &&& after.model == t.model
            &&& after.mode == t.mode
        }),
    decreases answers.len(), 0int,
{
    let calls = reply@.calls;
    let n = t.messages.len();
    let (after, action) = after_answers(t, reply, answers);
    lemma_assistant_repeats(reply@.text, calls);
    if answers.len() == 0 {
        assert(after.messages.take(n as int) =~= t.messages);
        if calls.len() > 0 {
            lemma_is_used(t.tools_used, calls[0].name);
        }
    } else {
        let rest = answers.drop_last();
        let k = rest.len();
        let before = after_answers(t, reply, rest).0;
        law_a_round_makes_every_call_in_order(
            t,
            reply,
            rest,
            if j < k {
                j
            } else {
                0
            },
        );
        if j == k {
            lemma_call_is_noted(t, reply, rest);
        }
        lemma_tool_message_fields(calls[k as int].id, told(answers.last()));
        assert(after.messages.take(n as int) =~= t.messages) by {
            assert(before.messages.take(n as int) == t.messages);
            assert forall|i: int| 0 <= i < n implies after.messages[i] == t.messages[i] by {
                assert(before.messages.take(n as int)[i] == t.messages[i]);
            }
        }
        assert(after.messages[n as int] == before.messages[n as int]);
        assert(told(answers.last()) == answer_text(answers.last()));
        if j < k {
            assert(rest[j] == answers[j]);
            assert(after.messages[n + 1 + j] == before.messages[n + 1 + j]);
        }
        if k + 1 < calls.len() {
            lemma_is_used(before.tools_used, calls[k as int + 1].name);
        }
        if before.tools_used.contains(calls[j].name) {
            let i = choose|i: int|
                0 <= i < before.tools_used.len() && before.tools_used[i] == calls[j].name;
            assert(after.tools_used[i] == calls[j].name);
        }
    }
}

proof fn lemma_is_used(used: Seq<Seq<char>>, name: Seq<char>)
    ensures
        used.push(name).contains(name),
{
    assert(used.push(name)[used.len() as int] == name);
}

/// The call under way is among the tools used.
proof fn lemma_call_is_noted(t: TurnView, reply: Reply, answers: Seq<Result<String, String>>)
    requires
        t.phase is Replying,
        answers.len() < reply@.calls.len(),
    ensures
        after_answers(t, reply, answers).0.tools_used.contains(
            reply@.calls[answers.len() as int].name,
        ),
    decreases answers.len(), 1int,
{
    let calls = reply@.calls;
    law_a_round_makes_every_call_in_order(t, reply, answers, 0);
    if answers.len() == 0 {
        lemma_is_used(t.tools_used, calls[0].name);
    } else {
        law_a_round_makes_every_call_in_order(t, reply, answers.drop_last(), 0);
        let before = after_answers(t, reply, answers.drop_last()).0;
        lemma_is_used(before.tools_used, calls[answers.len() as int].name);
    }
}

// --- what the inbox comes to ------------------------------------------------

/// Every nudge in the inbox becomes a message of the user, in the order they came, and
/// nothing else does.
pub proof fn law_every_nudge_is_heard(
    t: TurnView,
    before: Seq<InboxItem>,
    items: Vec<InboxItem>,
    after: Seq<InboxItem>,
    s: String,
)
    requires
        items@ == before + seq![InboxItem::Nudge(s)] + after,
    ensures
        ({
            let said = stepped(t, Event::Inbox(items)).0.messages;
            let at = t.messages.len() + nudge_messages(before).len();
            &&& said.len() == at + 1 + nudge_messages(after).len()
            &&& json::text_field(said[at as int], "role"@) == Some("user"@)
            &&& json::text_field(said[at as int], "content"@) == Some(s@)
        }),
{
    let one = seq![InboxItem::Nudge(s)];
    lemma_nudges_add(before + one, after);
    lemma_nudges_add(before, one);
    assert(one.drop_last() =~= Seq::<InboxItem>::empty());
    assert(nudge_messages(Seq::<InboxItem>::empty()) == Seq::<JsonView>::empty());
    assert(one.last() == InboxItem::Nudge(s));
    let m = message("user"@, JsonView::Text(s@));
    assert(nudge_messages(one) =~= seq![m]);
    lemma_message_fields("user"@, JsonView::Text(s@));
}

proof fn lemma_nudges_add(a: Seq<InboxItem>, b: Seq<InboxItem>)
    ensures
        nudge_messages(a + b) == nudge_messages(a) + nudge_messages(b),
    decreases b.len(),
{
    if b.len() == 0 {
        assert(a + b =~= a);
        assert(nudge_messages(a) + nudge_messages(b) =~= nudge_messages(a));
    } else {
        assert((a + b).drop_last() =~= a + b.drop_last());
        assert((a + b).last() == b.last());
        lemma_nudges_add(a, b.drop_last());
        if let InboxItem::Nudge(s) = b.last() {
            let m = message("user"@, JsonView::Text(s@));
            assert((nudge_messages(a) + nudge_messages(b.drop_last())).push(m) =~= nudge_messages(
                a,
            ) + nudge_messages(b.drop_last()).push(m));
        }
    }
}

/// An inbox without nudges adds nothing to the conversation.
pub proof fn law_only_nudges_are_heard(t: TurnView, items: Vec<InboxItem>)
    requires
        forall|i: int| 0 <= i < items@.len() ==> !(#[trigger] items@[i] is Nudge),
    ensures
        stepped(t, Event::Inbox(items)).0.messages == t.messages,
{
    lemma_no_nudges(items@);
    assert(t.messages + Seq::<JsonView>::empty() =~= t.messages);
}

proof fn lemma_no_nudges(items: Seq<InboxItem>)
    requires
        forall|i: int| 0 <= i < items.len() ==> !(#[trigger] items[i] is Nudge),
    ensures
        nudge_messages(items) == Seq::<JsonView>::empty(),
        interruption(items) is Quiet || interruption(items) is Cancelled,
    decreases items.len(),
{
    if items.len() > 0 {
        let rest = items.drop_last();
        assert forall|i: int| 0 <= i < rest.len() implies !(#[trigger] rest[i] is Nudge) by {
            assert(rest[i] == items[i]);
        }
        lemma_no_nudges(rest);
        assert(!(items[items.len() - 1] is Nudge));
    }
}

proof fn lemma_interruption(items: Seq<InboxItem>)
    ensures
        interruption(items) is Cancelled <==> (exists|i: int|
            0 <= i < items.len() && #[trigger] items[i] is Cancel),
        interruption(items) is Quiet <==> (forall|i: int|
            0 <= i < items.len() ==> #[trigger] items[i] is Control),
    decreases items.len(),
{
    if items.len() > 0 {
        let rest = items.drop_last();
        lemma_interruption(rest);
        assert forall|i: int| 0 <= i < rest.len() implies rest[i] == #[trigger] items[i] by {}
        assert(items[items.len() - 1] == items.last());
        if interruption(rest) is Cancelled {
            let i = choose|i: int| 0 <= i < rest.len() && #[trigger] rest[i] is Cancel;
            assert(items[i] is Cancel);
        }
        if exists|i: int| 0 <= i < items.len() && #[trigger] items[i] is Cancel {
            let i = choose|i: int| 0 <= i < items.len() && #[trigger] items[i] is Cancel;
            if i < rest.len() {
                assert(rest[i] is Cancel);
            }
        }
        if forall|i: int| 0 <= i < items.len() ==> #[trigger] items[i] is Control {
            assert forall|i: int| 0 <= i < rest.len() implies #[trigger] rest[i] is Control by {
                assert(items[i] is Control);
            }
        }
        if interruption(items) is Quiet {
            assert forall|i: int| 0 <= i < items.len() implies #[trigger] items[i] is Control by {
                if i < rest.len() {
                    assert(rest[i] is Control);
                }
            }
        }
    }
}

/// What follows a look into the inbox: a cancellation ends the turn as cancelled;
/// otherwise a turn whose model was done ends unless there was a nudge, and one that
/// has more to do, or was nudged, takes another round as long as it has rounds left.
pub proof fn law_the_inbox_decides_what_follows(t: TurnView, items: Vec<InboxItem>)
    requires
        t.phase is Polling,
    ensures
        ({
            let (after, action) = stepped(t, Event::Inbox(items));
            let cancelled = exists|i: int| 0 <= i < items@.len() && #[trigger] items@[i] is Cancel;
            let nudged = exists|i: int| 0 <= i < items@.len() && #[trigger] items@[i] is Nudge;
            let spoken = t.phase->Polling_spoken;
            if cancelled {
                action is Finish && after.stopped_by is Cancelled && after.phase is Over
            } else if spoken && !nudged {
                action is Finish && after.stopped_by is Finished && after.phase is Over
            } else if t.iterations < t.max_iterations {
                action is Complete && after.phase is Replying && after.iterations == t.iterations
                    + 1
            } else {
                action is NoteAndFinish && after.stopped_by is MaxIterations && after.phase is Over
                    && after.iterations == t.iterations
            }
        }),
{
    lemma_interruption(items@);
    if exists|i: int| 0 <= i < items@.len() && #[trigger] items@[i] is Nudge {
        let i = choose|i: int| 0 <= i < items@.len() && #[trigger] items@[i] is Nudge;
        assert(!(items@[i] is Control));
    }
}

/// A turn starts by asking the model, unless it has no rounds at all.
pub proof fn law_a_turn_starts_by_asking(t: TurnView)
    ensures
        t.iterations < t.max_iterations ==> stepped(t, Event::Begin).1 is Complete && stepped(
            t,
            Event::Begin,
        ).0 == (TurnView { iterations: t.iterations + 1, phase: PhaseView::Replying, ..t }),
        t.iterations >= t.max_iterations ==> (stepped(
            t,
            Event::Begin,
        ).1 matches ActionView::NoteAndFinish(note) && text::occurs(
            note,
            decimal(t.max_iterations as nat),
        )) && stepped(t, Event::Begin).0.stopped_by is MaxIterations,
{
    let n = decimal(t.max_iterations as nat);
    let head = "stopped after "@;
    let note = head + n + " iterations"@;
    assert(note.subrange(head.len() as int, (head.len() + n.len()) as int) =~= n);
    assert(text::occurs_at(note, n, head.len() as int));
}

/// A new turn is for its session, asks the model and works in the mode that the
/// session chose, or else those that the harness names; it has as many rounds as it
/// was given, up to the ceiling; and it carries the conversation it was handed, with
/// nothing counted yet.
pub proof fn law_a_new_turn_follows_the_session(
    session_id: Seq<char>,
    chosen_model: Option<Seq<char>>,
    chosen_mode: Option<Seq<char>>,
    model_setting: Option<Seq<char>>,
    usual_model: Seq<char>,
    rounds: u32,
    messages: Seq<JsonView>,
)
    ensures
        ({
            let t = fresh_turn(
                session_id,
                chosen_model,
                chosen_mode,
                model_setting,
                usual_model,
                Some(decimal(rounds as nat)),
                messages,
            );
            let bare = fresh_turn(
                session_id,
                chosen_model,
                chosen_mode,
                model_setting,
                usual_model,
                None,
                messages,
            );
            &&& t.session_id == session_id
            &&& t.messages == messages
            &&& (chosen_model matches Some(m) && m.len() > 0 ==> t.model == chosen_model->0)
            &&& !(chosen_model matches Some(m) && m.len() > 0) && model_setting is Some ==> t.model
                == model_setting->0
            &&& !(chosen_model matches Some(m) && m.len() > 0) && model_setting is None ==> t.model
                == usual_model
            &&& (chosen_mode matches Some(m) && m.len() > 0 ==> t.mode == chosen_mode->0)
            &&& !(chosen_mode matches Some(m) && m.len() > 0) ==> t.mode == "agent"@
            &&& t.max_iterations <= 64 && (rounds <= 64 ==> t.max_iterations == rounds) && (rounds
                > 64 ==> t.max_iterations == 64)
            &&& bare.max_iterations == 32
            &&& t.iterations == 0 && t.prompt_tokens == 0 && t.completion_tokens == 0
            &&& t.tools_used.len() == 0
            &&& t.phase is Start
        }),
{
    text::law_numbers_read_back(rounds as nat, u32::MAX as nat);
}

/// What the model is asked names the turn's model and carries the whole conversation
/// and every tool on offer, in order.
pub proof fn law_a_request_carries_the_conversation(t: TurnView, definitions: Seq<JsonView>)
    ensures
        json::text_field(completion_request(t, definitions), "model"@) == Some(t.model),
        json::array_field(completion_request(t, definitions), "messages"@) == Some(t.messages),
        json::array_field(completion_request(t, definitions), "tools"@) == Some(definitions),
{
    reveal_strlit("model");
    reveal_strlit("messages");
    reveal_strlit("tools");
    assert("model"@.len() == 5 && "messages"@.len() == 8 && "tools"@[0] == 't' && "model"@[0]
        == 'm');
}

// --- what the log comes to --------------------------------------------------

/// What the log gains is true: of a reply its words, its calls, the model and the
/// usage; of a call that it was made, before it is; and of an answer which call it was
/// to, whether it worked, and what it said.
pub proof fn law_the_log_is_truthful(t: TurnView, event: Event)
    requires
        expects(t, event),
        turn_ok(t),
    ensures
        event matches Event::Replied(reply) ==> logged(t, event).len() >= 1 && (logged(
            t,
            event,
        )[0] matches EntryView::Assistant { content, calls, model, usage } && content
            == reply.text@ && calls == call_views(reply.tool_calls@) && model == reply.model@
            && usage == reply.usage),
        event matches Event::Answered(answer) ==> logged(t, event).len() >= 1 && (logged(
            t,
            event,
        )[0] matches EntryView::Outcome { call_id, name, ok, content } && call_id
            == t.phase->Calling_calls[t.phase->Calling_next].id && name
            == t.phase->Calling_calls[t.phase->Calling_next].name && ok == (answer is Ok)
            && content == told(answer)),
        stepped(t, event).1 matches ActionView::Call(call) ==> logged(t, event).len() >= 1
            && logged(t, event).last() == EntryView::Invocation(call),
        stepped(t, event).1 matches ActionView::NoteAndFinish(note) ==> logged(t, event).len() >= 1
            && logged(t, event).last() == EntryView::Note(note),
{
}

/// The conversation rebuilt from a log starts with the prompt and then follows the log
/// in order: it is rebuilt event by event.
pub proof fn law_the_log_is_followed_in_order(
    prompt: Seq<char>,
    a: Seq<SessionEvent>,
    b: Seq<SessionEvent>,
)
    ensures
        rehydrated(prompt, a).len() >= 1,
        json::text_field(rehydrated(prompt, a)[0], "role"@) == Some("system"@),
        json::text_field(rehydrated(prompt, a)[0], "content"@) == Some(prompt),
        rehydrated(prompt, a + b) == rehydrated(prompt, a) + rehydrated(prompt, b).skip(1),
        rehydrated(prompt, Seq::<SessionEvent>::empty()).len() == 1,
{
    lemma_log_messages_add(a, b);
    lemma_message_fields("system"@, JsonView::Text(prompt));
    let lead = seq![message("system"@, JsonView::Text(prompt))];
    assert((lead + log_messages(b)).skip(1) =~= log_messages(b));
    assert(lead + (log_messages(a) + log_messages(b)) =~= lead + log_messages(a) + log_messages(b));
    assert(log_messages(Seq::<SessionEvent>::empty()) == Seq::<JsonView>::empty());
}

/// What one event of the log stands for in the conversation: what the user wrote in
/// the user's name, what the model said in its own with its calls, an answer under its
/// call's id, a note in the system's name; and bookkeeping stands for nothing.
pub proof fn law_an_event_speaks_in_its_own_name(prompt: Seq<char>, event: SessionEvent)
    ensures
        ({
            let said = rehydrated(prompt, seq![event]).skip(1);
            match event {
                SessionEvent::UserMessage(msg) => said.len() == 1 && json::text_field(
                    said[0],
                    "role"@,
                ) == Some("user"@) && (msg.attachments@.len() == 0 ==> json::text_field(
                    said[0],
                    "content"@,
                ) == Some(msg.text@)),
                SessionEvent::Nudge(s) => said.len() == 1 && json::text_field(said[0], "role"@)
                    == Some("user"@) && json::text_field(said[0], "content"@) == Some(s@),
                SessionEvent::AssistantMessage(msg) => said.len() == 1 && repeats(
                    said[0],
                    msg.content@,
                    call_views(msg.tool_calls@),
                ),
                SessionEvent::ToolResult(out) => said.len() == 1 && json::text_field(
                    said[0],
                    "role"@,
                ) == Some("tool"@) && json::text_field(said[0], "tool_call_id"@) == Some(
                    out.call_id@,
                ) && json::text_field(said[0], "content"@) == Some(out.content@),
                SessionEvent::SystemNote(s) => said.len() == 1 && json::text_field(
                    said[0],
                    "role"@,
                ) == Some("system"@) && json::text_field(said[0], "content"@) == Some(s@),
                _ => said.len() == 0,
            }
        }),
{
    let one = seq![event];
    let lead = seq![message("system"@, JsonView::Text(prompt))];
    assert(one.drop_last() =~= Seq::<SessionEvent>::empty());
    assert(log_messages(Seq::<SessionEvent>::empty()) == Seq::<JsonView>::empty());
    assert(one.last() == event);
    assert((lead + log_messages(one)).skip(1) =~= log_messages(one));
    match event {
        SessionEvent::UserMessage(msg) => {
            lemma_message_fields("user"@, user_json(msg));
        },
        SessionEvent::Nudge(s) => {
            lemma_message_fields("user"@, JsonView::Text(s@));
        },
        SessionEvent::AssistantMessage(msg) => {
            lemma_assistant_repeats(msg.content@, call_views(msg.tool_calls@));
        },
        SessionEvent::ToolResult(out) => {
            lemma_tool_message_fields(out.call_id@, out.content@);
        },
        SessionEvent::SystemNote(s) => {
            lemma_message_fields("system"@, JsonView::Text(s@));
        },
        _ => {},
    }
}

/// A message with files carries what the user wrote, where they wrote anything, and
/// behind it each file in order: an image with its data, any other by its name.
pub proof fn law_a_message_carries_its_files(msg: UserMsg, i: int)
    requires
        0 <= i < msg.attachments@.len(),
    ensures
        user_json(msg) matches JsonView::Array(parts) && ({
            let lead: int = if (exists|k: int|
                0 <= k < msg.text@.len() && !text::is_white(#[trigger] msg.text@[k])) {
                1
            } else {
                0
            };
            let a = msg.attachments@[i];
            let part = parts[lead + i];
            &&& parts.len() == lead + msg.attachments@.len()
            &&& lead == 1 ==> json::text_field(parts[0], "type"@) == Some("text"@)
                && json::text_field(parts[0], "text"@) == Some(msg.text@)
            &&& begins(a.mime@, "image/"@) ==> (json::field(part, "image_url"@) matches Some(url)
                && (json::text_field(url, "url"@) matches Some(u) && text::ends(u, a.data_base64@)
                && text::begins(u, "data:"@ + a.mime@)))
            &&& !begins(a.mime@, "image/"@) ==> (json::text_field(part, "text"@) matches Some(note)
                && text::occurs(note, a.name@))
        }),
{
    reveal_strlit("type");
    reveal_strlit("text");
    reveal_strlit("image_url");
    assert("type"@[1] == 'y' && "text"@[1] == 'e' && "image_url"@.len() == 9);
    text::lemma_blank(msg.text@);
    let a = msg.attachments@[i];
    if begins(a.mime@, "image/"@) {
        let u = "data:"@ + a.mime@ + ";base64,"@ + a.data_base64@;
        assert(u.subrange(u.len() - a.data_base64@.len(), u.len() as int) =~= a.data_base64@);
        let front = "data:"@ + a.mime@;
        assert(u.subrange(0, front.len() as int) =~= front);
    } else {
        let head = "[attached file: "@;
        let note = head + a.name@ + " ("@ + a.mime@ + ")]"@;
        assert(note.subrange(head.len() as int, (head.len() + a.name@.len()) as int) =~= a.name@);
        assert(text::occurs_at(note, a.name@, head.len() as int));
    }
    let lead = if trimmed(msg.text@).len() > 0 {
        seq![text_part(msg.text@)]
    } else {
        Seq::<JsonView>::empty()
    };
    let rest = msg.attachments@.map_values(|x: Attachment| attachment_part(x));
    assert((lead + rest)[lead.len() + i] == rest[i]);
    if trimmed(msg.text@).len() > 0 {
        let k = choose|k: int| 0 <= k < msg.text@.len() && !text::is_white(msg.text@[k]);
        assert(!text::is_white(msg.text@[k]));
        assert((lead + rest)[0] == text_part(msg.text@));
    }
}

/// The prompt starts with the base prompt and holds the name and the instructions of
/// every skill that is attached; a skill that is not attached adds nothing.
pub proof fn law_attached_skills_are_in_the_prompt(
    base: Seq<char>,
    before: Seq<SkillInfo>,
    skill: SkillInfo,
    after: Seq<SkillInfo>,
)
    ensures
        ({
            let all = before + seq![skill] + after;
            let prompt = prompt_text(Some(base), all);
            &&& text::begins(prompt, base)
            &&& skill.enabled ==> text::occurs(prompt, skill.name@) && text::occurs(
                prompt,
                skill.instructions@,
            )
            &&& !skill.enabled ==> prompt == prompt_text(Some(base), before + after)
            &&& (forall|i: int| 0 <= i < all.len() ==> !(#[trigger] all[i]).enabled) ==> prompt
                == base
        }),
{
    let one = seq![skill];
    let all = before + one + after;
    lemma_sections_add(before + one, after);
    lemma_sections_add(before, one);
    lemma_sections_add(before, after);
    assert(one.drop_last() =~= Seq::<SkillInfo>::empty());
    assert(skill_sections(Seq::<SkillInfo>::empty()) == Seq::<char>::empty());
    assert(one.last() == skill);
    let section = given(skill.enabled, skill_section(skill));
    assert(skill_sections(one) =~= section);
    let prompt = prompt_text(Some(base), all);
    assert(prompt.subrange(0, base.len() as int) =~= base);
    if skill.enabled {
        assert(all[before.len() as int].enabled);
        let head = base + ("\n\n# Active skills\n"@ + skill_sections(before));
        let at = head + "\n## "@;
        assert(prompt =~= head + skill_section(skill) + skill_sections(after));
        assert(prompt.subrange(at.len() as int, (at.len() + skill.name@.len()) as int)
            =~= skill.name@);
        assert(text::occurs_at(prompt, skill.name@, at.len() as int));
        let to = at + skill.name@ + "\n"@;
        assert(prompt.subrange(to.len() as int, (to.len() + skill.instructions@.len()) as int)
            =~= skill.instructions@);
        assert(text::occurs_at(prompt, skill.instructions@, to.len() as int));
    } else {
        let rest = before + after;
        assert(skill_sections(all) =~= skill_sections(rest));
        if any_attached(all) {
            let i = choose|i: int| 0 <= i < all.len() && (#[trigger] all[i]).enabled;
            if i < before.len() {
                assert(rest[i].enabled);
            } else {
                assert(rest[i - 1].enabled);
            }
        }
        if any_attached(rest) {
            let i = choose|i: int| 0 <= i < rest.len() && (#[trigger] rest[i]).enabled;
            if i < before.len() {
                assert(all[i].enabled);
            } else {
                assert(all[i + 1].enabled);
            }
        }
    }
    assert(base + Seq::<char>::empty() =~= base);
}

proof fn lemma_sections_add(a: Seq<SkillInfo>, b: Seq<SkillInfo>)
    ensures
        skill_sections(a + b) == skill_sections(a) + skill_sections(b),
    decreases b.len(),
{
    if b.len() == 0 {
        assert(a + b =~= a);
        assert(skill_sections(a) + skill_sections(b) =~= skill_sections(a));
    } else {
        assert((a + b).drop_last() =~= a + b.drop_last());
        assert((a + b).last() == b.last());
        lemma_sections_add(a, b.drop_last());
        let s = given(b.last().enabled, skill_section(b.last()));
        assert(skill_sections(a) + skill_sections(b.drop_last()) + s =~= skill_sections(a) + (
        skill_sections(b.drop_last()) + s));
    }
}

/// A failed completion is described with what the provider said.
pub proof fn law_a_provider_is_quoted(e: LlmError)
    ensures
        text::ends(
            llm_error_text(e),
            match e {
                LlmError::Auth(d) => d@,
                LlmError::RateLimited(d) => d@,
                LlmError::Transport(d) => d@,
                LlmError::ModelError(d) => d@,
                LlmError::Budget(d) => d@,
                LlmError::BadRequest(d) => d@,
            },
        ),
{
    let d = match e {
        LlmError::Auth(d) => d@,
        LlmError::RateLimited(d) => d@,
        LlmError::Transport(d) => d@,
        LlmError::ModelError(d) => d@,
        LlmError::Budget(d) => d@,
        LlmError::BadRequest(d) => d@,
    };
    let all = llm_error_text(e);
    assert(all.subrange(all.len() - d.len(), all.len() as int) =~= d);
}

/// A turn whose completion failed ends there, as failed by the model, with what went
/// wrong, and leaves everything else as it was; the words for how turns end are all
/// different.
pub proof fn law_a_turn_ends_under_its_own_word(t: TurnView, e: String, a: Stop, b: Stop)
    ensures
        stepped(t, Event::Failed(e)).1 == ActionView::Fail(e@),
        stepped(t, Event::Failed(e)).0 == (TurnView {
            stopped_by: Stop::LlmError,
            phase: PhaseView::Over,
            ..t
        }),
        stop_word(a) == stop_word(b) ==> a == b,
        logged(t, Event::Failed(e)).len() == 0,
{
    reveal_strlit("stop");
    reveal_strlit("max-iterations");
    reveal_strlit("llm-error");
    reveal_strlit("cancelled");
    assert("stop"@.len() == 4 && "max-iterations"@.len() == 14);
    assert("llm-error"@.len() == 9 && "llm-error"@[0] == 'l' && "cancelled"@[0] == 'c');
}

/// The tools a turn has used are kept in the order of their first use; a step adds at
/// most the tool that it calls.
pub proof fn law_used_tools_are_kept(t: TurnView, event: Event)
    ensures
        ({
            let (after, action) = stepped(t, event);
            &&& t.tools_used.len() <= after.tools_used.len() <= t.tools_used.len() + 1
            &&& after.tools_used.take(t.tools_used.len() as int) == t.tools_used
            &&& after.tools_used.len() > t.tools_used.len() ==> (action matches ActionView::Call(c)
                && after.tools_used.last() == c.name && !t.tools_used.contains(c.name))
        }),
{
    let after = stepped(t, event).0;
    assert(after.tools_used.take(t.tools_used.len() as int) =~= t.tools_used);
}

} // verus!
