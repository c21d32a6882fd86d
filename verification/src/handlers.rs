//! The chat surface: what each frame of a browser asks for, and the frames
//! that answer it.
//!
//! A frame is routed to a list of steps. Some are sent as they are; some ask
//! the harness to do something; some are frames to be filled with what the
//! harness knows.
use vstd::prelude::*;

use crate::json;
use crate::json::{array_field, bool_field, compact_text, text_field, trees, Json, JsonView};
use crate::text;
use crate::text::{text_of, texts, trimmed};
use crate::types::{Attachment, ModeInfo, ModelInfo, SessionMeta, SkillInfo, ToolManifest};

verus! {

/// What the host does with a connection.
#[derive(Debug, PartialEq, Eq)]
pub enum GatewayAction {
    /// Sends a frame back.
    Reply(String),
    /// Sends a frame to everyone who watches a session.
    Broadcast(String, String),
    /// Starts watching a session.
    Subscribe(String),
    /// Stops watching a session.
    Unsubscribe(String),
}

/// What the host does with a connection, as text.
pub enum ActionView {
    /// Sends a frame back.
    Reply(Seq<char>),
    /// Sends a frame to everyone who watches a session.
    Broadcast(Seq<char>, Seq<char>),
    /// Starts watching a session.
    Subscribe(Seq<char>),
    /// Stops watching a session.
    Unsubscribe(Seq<char>),
}

impl View for GatewayAction {
    type V = ActionView;

    open spec fn view(&self) -> ActionView {
        match self {
            GatewayAction::Reply(f) => ActionView::Reply(f@),
            GatewayAction::Broadcast(s, f) => ActionView::Broadcast(s@, f@),
            GatewayAction::Subscribe(s) => ActionView::Subscribe(s@),
            GatewayAction::Unsubscribe(s) => ActionView::Unsubscribe(s@),
        }
    }
}

/// What an attachment says.
pub struct AttachmentView {
    /// The file's name.
    pub name: Seq<char>,
    /// Its media type.
    pub mime: Seq<char>,
    /// Its contents.
    pub data_base64: Seq<char>,
}

/// What an attachment says.
pub open spec fn attachment_view(a: Attachment) -> AttachmentView {
    AttachmentView { name: a.name@, mime: a.mime@, data_base64: a.data_base64@ }
}

/// What each attachment of a list says.
pub open spec fn attachment_views(items: Seq<Attachment>) -> Seq<AttachmentView> {
    items.map_values(|a: Attachment| attachment_view(a))
}

/// One step of answering a frame.
#[derive(Debug, PartialEq, Eq)]
pub enum Step {
    /// Done with the connection as it stands.
    Act(GatewayAction),
    /// The frame that says what the pickers offer.
    Catalog,
    /// The frame that lists the sessions.
    Sessions,
    /// The frame with a session's mode and model.
    Settings(String),
    /// The frame with the skills of a session.
    Skills(String),
    /// The frame with the tools of a session.
    Tools(String),
    /// The frame with everything that happened in a session.
    History(String),
    /// Makes a session with this title; the steps of `opened` follow.
    Create(Option<String>, Option<String>),
    /// Gives a session a title.
    Rename(String, String),
    /// Archives a session.
    Archive(String),
    /// Sets a session's mode.
    SetMode(String, String),
    /// Sets a session's model.
    SetModel(String, String),
    /// Attaches a skill to a session, or takes it off.
    SetSkill(String, String, bool),
    /// Hands a session a message.
    Submit(String, String, Vec<Attachment>),
}

/// One step of answering a frame, as text.
pub enum StepView {
    /// Done with the connection as it stands.
    Act(ActionView),
    /// The frame that says what the pickers offer.
    Catalog,
    /// The frame that lists the sessions.
    Sessions,
    /// The frame with a session's mode and model.
    Settings(Seq<char>),
    /// The frame with the skills of a session.
    Skills(Seq<char>),
    /// The frame with the tools of a session.
    Tools(Seq<char>),
    /// The frame with everything that happened in a session.
    History(Seq<char>),
    /// Makes a session with this title; the steps of `opened` follow.
    Create(Option<Seq<char>>, Option<Seq<char>>),
    /// Gives a session a title.
    Rename(Seq<char>, Seq<char>),
    /// Archives a session.
    Archive(Seq<char>),
    /// Sets a session's mode.
    SetMode(Seq<char>, Seq<char>),
    /// Sets a session's model.
    SetModel(Seq<char>, Seq<char>),
    /// Attaches a skill to a session, or takes it off.
    SetSkill(Seq<char>, Seq<char>, bool),
    /// Hands a session a message.
    Submit(Seq<char>, Seq<char>, Seq<AttachmentView>),
}

impl View for Step {
    type V = StepView;

    open spec fn view(&self) -> StepView {
        match self {
            Step::Act(a) => StepView::Act(a@),
            Step::Catalog => StepView::Catalog,
            Step::Sessions => StepView::Sessions,
            Step::Settings(s) => StepView::Settings(s@),
            Step::Skills(s) => StepView::Skills(s@),
            Step::Tools(s) => StepView::Tools(s@),
            Step::History(s) => StepView::History(s@),
            Step::Create(t, p) => StepView::Create(text_of(*t), text_of(*p)),
            Step::Rename(s, t) => StepView::Rename(s@, t@),
            Step::Archive(s) => StepView::Archive(s@),
            Step::SetMode(s, m) => StepView::SetMode(s@, m@),
            Step::SetModel(s, m) => StepView::SetModel(s@, m@),
            Step::SetSkill(s, k, on) => StepView::SetSkill(s@, k@, *on),
            Step::Submit(s, t, a) => StepView::Submit(s@, t@, attachment_views(a@)),
        }
    }
}

/// What each step of a list says.
pub open spec fn step_views(steps: Seq<Step>) -> Seq<StepView> {
    steps.map_values(|s: Step| s@)
}

// --- routing ----------------------------------------------------------------

/// A document sent back.
pub open spec fn replied(j: JsonView) -> StepView {
    StepView::Act(ActionView::Reply(compact_text(j)))
}

/// The document that reports a fault.
pub open spec fn error_tree(message: Seq<char>) -> JsonView {
    JsonView::Object(
        map![
            "type"@ => JsonView::Text("error"@),
            "message"@ => JsonView::Text(message),
        ],
    )
}

/// A fault sent back, and nothing else.
pub open spec fn refused(message: Seq<char>) -> Seq<StepView> {
    seq![replied(error_tree(message))]
}

/// The attachment a document describes, if it names everything.
pub open spec fn attachment_in(item: JsonView) -> Option<AttachmentView> {
    match (text_field(item, "name"@), text_field(item, "mime"@), text_field(item, "data"@)) {
        (Some(name), Some(mime), Some(data)) => Some(
            AttachmentView { name, mime, data_base64: data },
        ),
        _ => None,
    }
}

/// The attachments a list describes; what describes none is passed over.
pub open spec fn attachments_in(items: Seq<JsonView>) -> Seq<AttachmentView>
    decreases items.len(),
{
    if items.len() == 0 {
        Seq::empty()
    } else {
        match attachment_in(items.last()) {
            Some(a) => attachments_in(items.drop_last()).push(a),
            None => attachments_in(items.drop_last()),
        }
    }
}

/// The attachments of a frame.
pub open spec fn frame_attachments(frame: JsonView) -> Seq<AttachmentView> {
    match array_field(frame, "attachments"@) {
        Some(items) => attachments_in(items),
        None => Seq::empty(),
    }
}

/// What the user wrote.
pub open spec fn frame_text(frame: JsonView) -> Seq<char> {
    match text_field(frame, "text"@) {
        Some(s) => trimmed(s),
        None => trimmed(""@),
    }
}

/// Turning to a session: what was watched before is let go.
pub open spec fn turned_to(session: Seq<char>, previous: Option<Seq<char>>) -> Seq<StepView> {
    let watch = seq![
        StepView::Act(ActionView::Subscribe(session)),
        StepView::History(session),
    ];
    match previous {
        Some(p) => if p != session {
            seq![StepView::Act(ActionView::Unsubscribe(p))] + watch
        } else {
            watch
        },
        None => watch,
    }
}

/// The document that says a session was opened.
pub open spec fn opened_tree(session: Seq<char>) -> JsonView {
    JsonView::Object(
        map![
            "type"@ => JsonView::Text("opened"@),
            "session"@ => JsonView::Text(session),
        ],
    )
}

/// What follows once a new session has its id.
pub open spec fn after_creation(session: Seq<char>, previous: Option<Seq<char>>) -> Seq<StepView> {
    (seq![StepView::Sessions] + turned_to(session, previous)).push(
        replied(opened_tree(session)),
    )
}

/// What a message asks for: nothing, where there are neither words nor files.
pub open spec fn sent(session: Seq<char>, frame: JsonView) -> Seq<StepView> {
    if frame_text(frame).len() == 0 && frame_attachments(frame).len() == 0 {
        Seq::empty()
    } else {
        seq![StepView::Submit(session, frame_text(frame), frame_attachments(frame))]
    }
}

/// What a frame asks for.
pub open spec fn routed(frame: JsonView) -> Seq<StepView> {
    let kind = match text_field(frame, "type"@) {
        Some(k) => k,
        None => ""@,
    };
    let id = text_field(frame, "id"@);
    let previous = text_field(frame, "previous"@);
    if kind == "hello"@ {
        seq![StepView::Catalog, StepView::Sessions]
    } else if kind == "list"@ {
        seq![StepView::Sessions]
    } else if kind == "catalog"@ {
        seq![StepView::Catalog]
    } else if kind == "open"@ {
        match id {
            Some(session) => turned_to(session, previous),
            None => refused("open requires an id"@),
        }
    } else if kind == "new"@ {
        seq![StepView::Create(text_field(frame, "title"@), previous)]
    } else if kind == "send"@ {
        match id {
            Some(session) => sent(session, frame),
            None => refused("send requires an id"@),
        }
    } else if kind == "rename"@ {
        match (id, text_field(frame, "title"@)) {
            (Some(session), Some(title)) => if trimmed(title).len() > 0 {
                seq![StepView::Rename(session, trimmed(title)), StepView::Sessions]
            } else {
                refused("rename requires an id and a title"@)
            },
            _ => refused("rename requires an id and a title"@),
        }
    } else if kind == "archive"@ {
        match id {
            Some(session) => seq![
                StepView::Archive(session),
                StepView::Act(ActionView::Unsubscribe(session)),
                StepView::Sessions,
            ],
            None => refused("archive requires an id"@),
        }
    } else if kind == "set-mode"@ {
        match (id, text_field(frame, "mode"@)) {
            (Some(session), Some(mode)) => seq![
                StepView::SetMode(session, mode),
                StepView::Settings(session),
                StepView::Sessions,
            ],
            _ => refused("set-mode requires an id and a mode"@),
        }
    } else if kind == "skills"@ {
        match id {
            Some(session) => seq![StepView::Skills(session)],
            None => refused("skills requires an id"@),
        }
    } else if kind == "set-skill"@ {
        match (id, text_field(frame, "skill"@), bool_field(frame, "enabled"@)) {
            (Some(session), Some(skill), Some(enabled)) => seq![
                StepView::SetSkill(session, skill, enabled),
                StepView::Skills(session),
            ],
            _ => refused("set-skill requires an id, a skill and enabled"@),
        }
    } else if kind == "tools"@ {
        match id {
            Some(session) => seq![StepView::Tools(session)],
            None => refused("tools requires an id"@),
        }
    } else if kind == "set-model"@ {
        match (id, text_field(frame, "model"@)) {
            (Some(session), Some(model)) => seq![
                StepView::SetModel(session, model),
                StepView::Settings(session),
                StepView::Sessions,
            ],
            _ => refused("set-model requires an id and a model"@),
        }
    } else {
        refused("unknown frame type: "@ + kind)
    }
}

/// A document sent back.
pub fn reply(value: &Json) -> (r: GatewayAction)
    ensures
        r@ == ActionView::Reply(compact_text(value@)),
{
    GatewayAction::Reply(value.to_text())
}

/// A fault sent back.
pub fn error(message: &str) -> (r: GatewayAction)
    ensures
        r@ == ActionView::Reply(compact_text(error_tree(message@))),
{
    reply(&Json::object().with("type", Json::text("error")).with("message", Json::text(message)))
}

/// A fault sent back, and nothing else.
fn refuse(message: &str) -> (r: Vec<Step>)
    ensures
        step_views(r@) == refused(message@),
{
    let steps = vec![Step::Act(error(message))];
    assert(step_views(steps@) =~= refused(message@));
    steps
}

/// The attachments of a frame.
fn parse_attachments(frame: &Json) -> (r: Vec<Attachment>)
    ensures
        attachment_views(r@) == frame_attachments(frame@),
{
    let mut out: Vec<Attachment> = Vec::new();
    match frame.get_array("attachments") {
        None => {
            assert(attachment_views(out@) =~= frame_attachments(frame@));
            out
        },
        Some(items) => {
            proof {
                json::lemma_trees(items@);
                assert(attachment_views(out@) =~= attachments_in(trees(items@).take(0)));
            }
            for i in 0..items.len()
                invariant
                    trees(items@).len() == items@.len(),
                    forall|j: int|
                        0 <= j < items@.len() ==> #[trigger] trees(items@)[j] == items@[j]@,
                    attachment_views(out@) == attachments_in(trees(items@).take(i as int)),
            {
                let ghost had = out@;
                proof {
                    let head = trees(items@).take(i + 1);
                    assert(head.drop_last() =~= trees(items@).take(i as int));
                    assert(head.last() == trees(items@)[i as int]);
                }
                let item = &items[i];
                if let Some(name) = item.get_str("name") {
                    if let Some(mime) = item.get_str("mime") {
                        if let Some(data) = item.get_str("data") {
                            let a = Attachment { name, mime, data_base64: data };
                            out.push(a);
                            assert(attachment_views(out@) =~= attachment_views(had).push(
                                attachment_view(a),
                            ));
                        }
                    }
                }
            }
            assert(trees(items@).take(items@.len() as int) =~= trees(items@));
            out
        },
    }
}

/// Turning to a session: what was watched before is let go.
fn open(session: &str, previous: &Option<String>) -> (r: Vec<Step>)
    ensures
        step_views(r@) == turned_to(session@, text_of(*previous)),
{
    let mut steps: Vec<Step> = Vec::new();
    if let Some(p) = previous {
        if !text::same(p.as_str(), session) {
            steps.push(Step::Act(GatewayAction::Unsubscribe(p.clone())));
        }
    }
    steps.push(Step::Act(GatewayAction::Subscribe(session.to_owned())));
    steps.push(Step::History(session.to_owned()));
    assert(step_views(steps@) =~= turned_to(session@, text_of(*previous)));
    steps
}

/// What follows once a new session has its id.
pub fn opened(session: &str, previous: &Option<String>) -> (r: Vec<Step>)
    ensures
        step_views(r@) == after_creation(session@, text_of(*previous)),
{
    let mut steps = vec![Step::Sessions];
    let mut turn = open(session, previous);
    let ghost turned = turn@;
    steps.append(&mut turn);
    steps.push(
        Step::Act(
            reply(
                &Json::object().with("type", Json::text("opened")).with(
                    "session",
                    Json::text(session),
                ),
            ),
        ),
    );
    assert(step_views(steps@) =~= (seq![StepView::Sessions] + step_views(turned)).push(
        replied(opened_tree(session@)),
    ));
    steps
}

/// What a message asks for: nothing, where there are neither words nor files.
fn send(session: String, frame: &Json) -> (r: Vec<Step>)
    ensures
        step_views(r@) == sent(session@, frame@),
{
    let words = match frame.get_str("text") {
        Some(s) => text::trim(s.as_str()),
        None => text::trim(""),
    };
    let files = parse_attachments(frame);
    if text::is_empty(words.as_str()) && files.len() == 0 {
        let steps: Vec<Step> = Vec::new();
        assert(step_views(steps@) =~= sent(session@, frame@));
        return steps;
    }
    let steps = vec![Step::Submit(session, words, files)];
    assert(step_views(steps@) =~= sent(session@, frame@));
    steps
}

/// Routes a frame to what it asks for.
pub fn dispatch(frame: &Json) -> (r: Vec<Step>)
    ensures
        step_views(r@) == routed(frame@),
{
    let kind = match frame.get_str("type") {
        Some(k) => k,
        None => "".to_owned(),
    };
    let id = frame.get_str("id");
    let previous = frame.get_str("previous");
    let k = kind.as_str();
    let steps = if text::same(k, "hello") {
        vec![Step::Catalog, Step::Sessions]
    } else if text::same(k, "list") {
        vec![Step::Sessions]
    } else if text::same(k, "catalog") {
        vec![Step::Catalog]
    } else if text::same(k, "open") {
        match id {
            Some(session) => open(session.as_str(), &previous),
            None => refuse("open requires an id"),
        }
    } else if text::same(k, "new") {
        vec![Step::Create(frame.get_str("title"), previous)]
    } else if text::same(k, "send") {
        match id {
            Some(session) => send(session, frame),
            None => refuse("send requires an id"),
        }
    } else if text::same(k, "rename") {
        match (id, frame.get_str("title")) {
            (Some(session), Some(title)) => {
                let title = text::trim(title.as_str());
                if !text::is_empty(title.as_str()) {
                    vec![Step::Rename(session, title), Step::Sessions]
                } else {
                    refuse("rename requires an id and a title")
                }
            },
            _ => refuse("rename requires an id and a title"),
        }
    } else if text::same(k, "archive") {
        match id {
            Some(session) => vec![
                Step::Archive(session.clone()),
                Step::Act(GatewayAction::Unsubscribe(session)),
                Step::Sessions,
            ],
            None => refuse("archive requires an id"),
        }
    } else if text::same(k, "set-mode") {
        match (id, frame.get_str("mode")) {
            (Some(session), Some(mode)) => vec![
                Step::SetMode(session.clone(), mode),
                Step::Settings(session),
                Step::Sessions,
            ],
            _ => refuse("set-mode requires an id and a mode"),
        }
    } else if text::same(k, "skills") {
        match id {
            Some(session) => vec![Step::Skills(session)],
            None => refuse("skills requires an id"),
        }
    } else if text::same(k, "set-skill") {
        match (id, frame.get_str("skill"), frame.get_bool("enabled")) {
            (Some(session), Some(skill), Some(enabled)) => vec![
                Step::SetSkill(session.clone(), skill, enabled),
                Step::Skills(session),
            ],
            _ => refuse("set-skill requires an id, a skill and enabled"),
        }
    } else if text::same(k, "tools") {
        match id {
            Some(session) => vec![Step::Tools(session)],
            None => refuse("tools requires an id"),
        }
    } else if text::same(k, "set-model") {
        match (id, frame.get_str("model")) {
            (Some(session), Some(model)) => vec![
                Step::SetModel(session.clone(), model),
                Step::Settings(session),
                Step::Sessions,
            ],
            _ => refuse("set-model requires an id and a model"),
        }
    } else {
        refuse("unknown frame type: ".to_owned().concat(k).as_str())
    };
    assert(step_views(steps@) =~= routed(frame@));
    steps
}

// --- frames -----------------------------------------------------------------

/// A model as the picker shows it.
pub open spec fn model_tree(x: ModelInfo) -> JsonView {
    JsonView::Object(
        map![
            "id"@ => JsonView::Text(x.id@),
            "label"@ => JsonView::Text(x.label@),
        ],
    )
}

fn model_list(items: &Vec<ModelInfo>) -> (r: Json)
    ensures
        r@ == JsonView::Array(items@.map_values(|x: ModelInfo| model_tree(x))),
{
    let mut out: Vec<Json> = Vec::new();
    let ghost all = items@.map_values(|x: ModelInfo| model_tree(x));
    assert(trees(out@) =~= all.take(0));
    for i in 0..items.len()
        invariant
            all == items@.map_values(|x: ModelInfo| model_tree(x)),
            trees(out@) == all.take(i as int),
    {
        let ghost had = out@;
        let x = &items[i];
        let j = Json::object().with(
            "id",
            Json::text(x.id.as_str()),
        ).with(
            "label",
            Json::text(x.label.as_str()),
        );
        out.push(j);
        proof {
            json::lemma_trees_push(had, j);
            assert(j@ == model_tree(*x));
            assert(all.take(i + 1) =~= all.take(i as int).push(all[i as int]));
        }
    }
    assert(all.take(items@.len() as int) =~= all);
    Json::Array(out)
}

/// A mode as the picker shows it.
pub open spec fn mode_tree(x: ModeInfo) -> JsonView {
    JsonView::Object(
        map![
            "id"@ => JsonView::Text(x.id@),
            "label"@ => JsonView::Text(x.label@),
            "description"@ => JsonView::Text(x.description@),
        ],
    )
}

fn mode_list(items: &Vec<ModeInfo>) -> (r: Json)
    ensures
        r@ == JsonView::Array(items@.map_values(|x: ModeInfo| mode_tree(x))),
{
    let mut out: Vec<Json> = Vec::new();
    let ghost all = items@.map_values(|x: ModeInfo| mode_tree(x));
    assert(trees(out@) =~= all.take(0));
    for i in 0..items.len()
        invariant
            all == items@.map_values(|x: ModeInfo| mode_tree(x)),
            trees(out@) == all.take(i as int),
    {
        let ghost had = out@;
        let x = &items[i];
        let j = Json::object().with(
            "id",
            Json::text(x.id.as_str()),
        ).with(
            "label",
            Json::text(x.label.as_str()),
        ).with(
            "description",
            Json::text(x.description.as_str()),
        );
        out.push(j);
        proof {
            json::lemma_trees_push(had, j);
            assert(j@ == mode_tree(*x));
            assert(all.take(i + 1) =~= all.take(i as int).push(all[i as int]));
        }
    }
    assert(all.take(items@.len() as int) =~= all);
    Json::Array(out)
}

/// What the pickers offer.
pub open spec fn catalog_tree(models: Seq<ModelInfo>, modes: Seq<ModeInfo>) -> JsonView {
    JsonView::Object(
        map![
            "type"@ => JsonView::Text("catalog"@),
            "models"@ => JsonView::Array(models.map_values(|x: ModelInfo| model_tree(x))),
            "modes"@ => JsonView::Array(modes.map_values(|x: ModeInfo| mode_tree(x))),
        ],
    )
}

/// What the pickers offer. Sent once on connect.
pub fn catalog(models: &Vec<ModelInfo>, modes: &Vec<ModeInfo>) -> (r: GatewayAction)
    ensures
        r@ == ActionView::Reply(compact_text(catalog_tree(models@, modes@))),
{
    reply(
        &Json::object().with("type", Json::text("catalog")).with(
            "models",
            model_list(models),
        ).with("modes", mode_list(modes)),
    )
}

/// The sessions, each as the harness writes it.
pub open spec fn sessions_tree(list: Seq<JsonView>) -> JsonView {
    JsonView::Object(
        map![
            "type"@ => JsonView::Text("sessions"@),
            "sessions"@ => JsonView::Array(list),
        ],
    )
}

/// The sessions, each as the harness writes it.
pub fn sessions(list: Vec<Json>) -> (r: GatewayAction)
    ensures
        r@ == ActionView::Reply(compact_text(sessions_tree(trees(list@)))),
{
    reply(
        &Json::object().with("type", Json::text("sessions")).with("sessions", Json::Array(list)),
    )
}

/// A skill as the panel shows it.
pub open spec fn skill_tree(x: SkillInfo) -> JsonView {
    JsonView::Object(
        map![
            "id"@ => JsonView::Text(x.id@),
            "name"@ => JsonView::Text(x.name@),
            "description"@ => JsonView::Text(x.description@),
            "instructions"@ => JsonView::Text(x.instructions@),
            "enabled"@ => JsonView::Bool(x.enabled),
        ],
    )
}

fn skill_list(items: &Vec<SkillInfo>) -> (r: Json)
    ensures
        r@ == JsonView::Array(items@.map_values(|x: SkillInfo| skill_tree(x))),
{
    let mut out: Vec<Json> = Vec::new();
    let ghost all = items@.map_values(|x: SkillInfo| skill_tree(x));
    assert(trees(out@) =~= all.take(0));
    for i in 0..items.len()
        invariant
            all == items@.map_values(|x: SkillInfo| skill_tree(x)),
            trees(out@) == all.take(i as int),
    {
        let ghost had = out@;
        let x = &items[i];
        let j = Json::object().with(
            "id",
            Json::text(x.id.as_str()),
        ).with(
            "name",
            Json::text(x.name.as_str()),
        ).with(
            "description",
            Json::text(x.description.as_str()),
        ).with(
            "instructions",
            Json::text(x.instructions.as_str()),
        ).with(
            "enabled",
            Json::Bool(x.enabled),
        );
        out.push(j);
        proof {
            json::lemma_trees_push(had, j);
            assert(j@ == skill_tree(*x));
            assert(all.take(i + 1) =~= all.take(i as int).push(all[i as int]));
        }
    }
    assert(all.take(items@.len() as int) =~= all);
    Json::Array(out)
}

/// The skills on offer, each with whether it is attached to this conversation.
pub open spec fn skills_tree(session: Seq<char>, list: Seq<SkillInfo>) -> JsonView {
    JsonView::Object(
        map![
            "type"@ => JsonView::Text("skills"@),
            "session"@ => JsonView::Text(session),
            "skills"@ => JsonView::Array(list.map_values(|x: SkillInfo| skill_tree(x))),
        ],
    )
}

/// The skills on offer, each with whether it is attached to this conversation.
pub fn skills(session: &str, list: &Vec<SkillInfo>) -> (r: GatewayAction)
    ensures
        r@ == ActionView::Reply(compact_text(skills_tree(session@, list@))),
{
    reply(
        &Json::object().with("type", Json::text("skills")).with(
            "session",
            Json::text(session),
        ).with("skills", skill_list(list)),
    )
}

/// A tool as the panel shows it.
pub open spec fn tool_tree(x: ToolManifest) -> JsonView {
    JsonView::Object(
        map![
            "name"@ => JsonView::Text(x.name@),
            "description"@ => JsonView::Text(x.description@),
            "schema"@ => JsonView::Text(x.args_schema_json@),
            "capabilities"@ => json::text_array(texts(x.capabilities@)),
        ],
    )
}

fn tool_list(items: &Vec<ToolManifest>) -> (r: Json)
    ensures
        r@ == JsonView::Array(items@.map_values(|x: ToolManifest| tool_tree(x))),
{
    let mut out: Vec<Json> = Vec::new();
    let ghost all = items@.map_values(|x: ToolManifest| tool_tree(x));
    assert(trees(out@) =~= all.take(0));
    for i in 0..items.len()
        invariant
            all == items@.map_values(|x: ToolManifest| tool_tree(x)),
            trees(out@) == all.take(i as int),
    {
        let ghost had = out@;
        let x = &items[i];
        let j = Json::object().with(
            "name",
            Json::text(x.name.as_str()),
        ).with(
            "description",
            Json::text(x.description.as_str()),
        ).with(
            "schema",
            Json::text(x.args_schema_json.as_str()),
        ).with(
            "capabilities",
            Json::strings(&x.capabilities),
        );
        out.push(j);
        proof {
            json::lemma_trees_push(had, j);
            assert(j@ == tool_tree(*x));
            assert(all.take(i + 1) =~= all.take(i as int).push(all[i as int]));
        }
    }
    assert(all.take(items@.len() as int) =~= all);
    Json::Array(out)
}

/// Exactly the tools the agent would offer for this conversation's mode.
pub open spec fn tools_tree(session: Seq<char>, list: Seq<ToolManifest>) -> JsonView {
    JsonView::Object(
        map![
            "type"@ => JsonView::Text("tools"@),
            "session"@ => JsonView::Text(session),
            "tools"@ => JsonView::Array(list.map_values(|x: ToolManifest| tool_tree(x))),
        ],
    )
}

/// Exactly the tools the agent would offer for this conversation's mode.
pub fn tools(session: &str, list: &Vec<ToolManifest>) -> (r: GatewayAction)
    ensures
        r@ == ActionView::Reply(compact_text(tools_tree(session@, list@))),
{
    reply(
        &Json::object().with("type", Json::text("tools")).with(
            "session",
            Json::text(session),
        ).with("tools", tool_list(list)),
    )
}

/// The mode of a session, empty where there is no such session.
pub open spec fn meta_mode(meta: Option<SessionMeta>) -> Seq<char> {
    match meta {
        Some(m) => m.mode@,
        None => ""@,
    }
}

/// The model of a session, empty where there is no such session.
pub open spec fn meta_model(meta: Option<SessionMeta>) -> Seq<char> {
    match meta {
        Some(m) => m.model@,
        None => ""@,
    }
}

/// The title of a session, empty where there is no such session.
pub open spec fn meta_title(meta: Option<SessionMeta>) -> Seq<char> {
    match meta {
        Some(m) => m.title@,
        None => ""@,
    }
}

/// The mode and the model of a session.
pub open spec fn settings_tree(session: Seq<char>, meta: Option<SessionMeta>) -> JsonView {
    JsonView::Object(
        map![
            "type"@ => JsonView::Text("settings"@),
            "session"@ => JsonView::Text(session),
            "mode"@ => JsonView::Text(meta_mode(meta)),
            "model"@ => JsonView::Text(meta_model(meta)),
        ],
    )
}

/// The mode and the model of a session.
pub fn session_settings(session: &str, meta: &Option<SessionMeta>) -> (r: GatewayAction)
    ensures
        r@ == ActionView::Reply(compact_text(settings_tree(session@, *meta))),
{
    let (mode, model) = match meta {
        Some(m) => (m.mode.as_str(), m.model.as_str()),
        None => ("", ""),
    };
    reply(
        &Json::object().with("type", Json::text("settings")).with(
            "session",
            Json::text(session),
        ).with("mode", Json::text(mode)).with("model", Json::text(model)),
    )
}

/// Everything that happened in a session, each event as it is rendered.
pub open spec fn history_tree(
    session: Seq<char>,
    meta: Option<SessionMeta>,
    events: Seq<JsonView>,
) -> JsonView {
    JsonView::Object(
        map![
            "type"@ => JsonView::Text("history"@),
            "session"@ => JsonView::Text(session),
            "title"@ => JsonView::Text(meta_title(meta)),
            "mode"@ => JsonView::Text(meta_mode(meta)),
            "model"@ => JsonView::Text(meta_model(meta)),
            "events"@ => JsonView::Array(events),
        ],
    )
}

/// Everything that happened in a session, each event as it is rendered.
pub fn history(session: &str, meta: &Option<SessionMeta>, events: Vec<Json>) -> (r: GatewayAction)
    ensures
        r@ == ActionView::Reply(compact_text(history_tree(session@, *meta, trees(events@)))),
{
    let (title, mode, model) = match meta {
        Some(m) => (m.title.as_str(), m.mode.as_str(), m.model.as_str()),
        None => ("", "", ""),
    };
    reply(
        &Json::object().with("type", Json::text("history")).with(
            "session",
            Json::text(session),
        ).with("title", Json::text(title)).with("mode", Json::text(mode)).with(
            "model",
            Json::text(model),
        ).with("events", Json::Array(events)),
    )
}

// --- what holds of every frame ----------------------------------------------

/// Whether a step leaves every session that exists as it is.
pub open spec fn changes_no_session(step: StepView) -> bool {
    match step {
        StepView::Act(_) => true,
        StepView::Catalog => true,
        StepView::Sessions => true,
        StepView::Settings(_) => true,
        StepView::Skills(_) => true,
        StepView::Tools(_) => true,
        StepView::History(_) => true,
        StepView::Create(_, _) => true,
        _ => false,
    }
}

/// The session a step is about, if it is about one that exists.
pub open spec fn about(step: StepView) -> Option<Seq<char>> {
    match step {
        StepView::Settings(s) => Some(s),
        StepView::Skills(s) => Some(s),
        StepView::Tools(s) => Some(s),
        StepView::History(s) => Some(s),
        StepView::Rename(s, _) => Some(s),
        StepView::Archive(s) => Some(s),
        StepView::SetMode(s, _) => Some(s),
        StepView::SetModel(s, _) => Some(s),
        StepView::SetSkill(s, _, _) => Some(s),
        StepView::Submit(s, _, _) => Some(s),
        _ => None,
    }
}

/// A frame reaches only the session it names: every step that reads or changes
/// a session is about the one whose id the frame carries.
pub proof fn law_a_frame_reaches_only_its_session(frame: JsonView, i: int)
    requires
        0 <= i < routed(frame).len(),
    ensures
        about(routed(frame)[i]) is Some ==> about(routed(frame)[i]) == text_field(frame, "id"@),
{
}

/// A frame that names no session changes none.
pub proof fn law_without_an_id_no_session_changes(frame: JsonView, i: int)
    requires
        text_field(frame, "id"@) is None,
        0 <= i < routed(frame).len(),
    ensures
        changes_no_session(routed(frame)[i]),
{
}

/// At most one step of a frame changes a session, and it comes first, so the
/// frames that follow show what it did.
pub proof fn law_changes_come_first(frame: JsonView, i: int)
    requires
        0 < i < routed(frame).len(),
    ensures
        changes_no_session(routed(frame)[i]),
{
}

/// A message without words or files is a stray keypress: it asks for nothing.
pub proof fn law_an_empty_message_is_no_turn(frame: JsonView)
    requires
        text_field(frame, "type"@) == Some("send"@),
        text_field(frame, "id"@) is Some,
        frame_text(frame).len() == 0,
        frame_attachments(frame).len() == 0,
    ensures
        routed(frame).len() == 0,
{
    reveal_strlit("send");
    reveal_strlit("hello");
    reveal_strlit("list");
    reveal_strlit("catalog");
    reveal_strlit("open");
    reveal_strlit("new");
    assert("send"@[0] == 's' && "list"@[0] == 'l' && "open"@[0] == 'o');
}

// --- what a message comes to ------------------------------------------------

/// Whether a document describes a file: it gives a name, a media type and contents.
pub open spec fn describes_a_file(item: JsonView) -> bool {
    &&& json::field(item, "name"@) matches Some(JsonView::Text(_))
    &&& json::field(item, "mime"@) matches Some(JsonView::Text(_))
    &&& json::field(item, "data"@) matches Some(JsonView::Text(_))
}

/// Whether a file is the one that a document describes.
pub open spec fn is_the_file(a: AttachmentView, item: JsonView) -> bool {
    &&& json::field(item, "name"@) == Some(JsonView::Text(a.name))
    &&& json::field(item, "mime"@) == Some(JsonView::Text(a.mime))
    &&& json::field(item, "data"@) == Some(JsonView::Text(a.data_base64))
}

/// Whether files are all those that a list of documents describes, in order.
pub open spec fn are_the_files(files: Seq<AttachmentView>, items: Seq<JsonView>) -> bool {
    let described = items.filter(|j: JsonView| describes_a_file(j));
    &&& files.len() == described.len()
    &&& forall|i: int| 0 <= i < files.len() ==> is_the_file(#[trigger] files[i], described[i])
}

proof fn lemma_files(items: Seq<JsonView>)
    ensures
        are_the_files(attachments_in(items), items),
    decreases items.len(),
{
    reveal(Seq::filter);
    if items.len() > 0 {
        let rest = items.drop_last();
        lemma_files(rest);
        let had = rest.filter(|j: JsonView| describes_a_file(j));
        let files = attachments_in(items);
        let described = items.filter(|j: JsonView| describes_a_file(j));
        assert(describes_a_file(items.last()) == (attachment_in(items.last()) is Some));
        if describes_a_file(items.last()) {
            assert(described == had.push(items.last()));
            assert(is_the_file(files.last(), items.last()));
            assert forall|i: int| 0 <= i < files.len() implies is_the_file(
                #[trigger] files[i],
                described[i],
            ) by {
                if i < had.len() {
                    assert(files[i] == attachments_in(rest)[i]);
                }
            }
        } else {
            assert(described == had);
        }
    }
}

/// The documents that a frame lists as attachments.
pub open spec fn listed_files(frame: JsonView) -> Seq<JsonView> {
    match json::field(frame, "attachments"@) {
        Some(JsonView::Array(items)) => items,
        _ => Seq::empty(),
    }
}

/// The words of a frame, as they came.
pub open spec fn raw_words(frame: JsonView) -> Seq<char> {
    match json::field(frame, "text"@) {
        Some(JsonView::Text(s)) => s,
        _ => Seq::empty(),
    }
}

/// A message to a session, with words or with files, is handed to that session, once
/// and whole: its words are the frame's words with the white space round them taken
/// off, whatever files come with them, and its files are all those that the frame
/// describes, in order. A message with neither is handed to nobody.
pub proof fn law_a_message_is_handed_on_whole(frame: JsonView, session: Seq<char>)
    requires
        text_field(frame, "type"@) == Some("send"@),
        text_field(frame, "id"@) == Some(session),
    ensures
        ({
            let words = exists|k: int|
                0 <= k < raw_words(frame).len() && !text::is_white(#[trigger] raw_words(frame)[k]);
            let files = exists|k: int|
                0 <= k < listed_files(frame).len() && describes_a_file(
                    #[trigger] listed_files(frame)[k],
                );
            &&& words || files ==> routed(frame).len() == 1 && (
            routed(frame)[0] matches StepView::Submit(to, said, with) && to == session && said
                == trimmed(raw_words(frame)) && are_the_files(with, listed_files(frame)))
            &&& !words && !files ==> routed(frame).len() == 0
        }),
{
    lemma_kinds_differ();
    let raw = raw_words(frame);
    reveal_strlit("");
    assert(""@ =~= Seq::<char>::empty());
    assert(frame_text(frame) == trimmed(raw));
    text::lemma_blank(raw);
    if trimmed(raw).len() > 0 {
        let k = choose|k: int| 0 <= k < raw.len() && !text::is_white(raw[k]);
        assert(!text::is_white(raw[k]));
    }
    let items = listed_files(frame);
    assert(frame_attachments(frame) == attachments_in(items)) by {
        assert(attachments_in(Seq::<JsonView>::empty()) == Seq::<AttachmentView>::empty());
    }
    lemma_files(items);
    lemma_some_file(items);
}

proof fn lemma_some_file(items: Seq<JsonView>)
    ensures
        (attachments_in(items).len() > 0) == (exists|k: int|
            0 <= k < items.len() && describes_a_file(#[trigger] items[k])),
    decreases items.len(),
{
    if items.len() > 0 {
        let rest = items.drop_last();
        lemma_some_file(rest);
        assert(describes_a_file(items.last()) == (attachment_in(items.last()) is Some));
        if describes_a_file(items.last()) {
            assert(describes_a_file(items[items.len() - 1]));
        }
        if attachments_in(rest).len() > 0 {
            let k = choose|k: int| 0 <= k < rest.len() && describes_a_file(#[trigger] rest[k]);
            assert(describes_a_file(items[k]));
        }
        if exists|k: int| 0 <= k < items.len() && describes_a_file(#[trigger] items[k]) {
            let k = choose|k: int| 0 <= k < items.len() && describes_a_file(#[trigger] items[k]);
            if k < rest.len() {
                assert(describes_a_file(rest[k]));
            }
        }
    }
}

/// The words that name the kinds of frames are all different.
proof fn lemma_kinds_differ()
    ensures
        "list"@ != "hello"@,
        "catalog"@ != "hello"@ && "catalog"@ != "list"@,
        "open"@ != "hello"@ && "open"@ != "list"@ && "open"@ != "catalog"@,
        "new"@ != "hello"@ && "new"@ != "list"@ && "new"@ != "catalog"@ && "new"@ != "open"@,
        "send"@ != "hello"@ && "send"@ != "list"@ && "send"@ != "catalog"@ && "send"@ != "open"@ && "send"@ != "new"@,
        "rename"@ != "hello"@ && "rename"@ != "list"@ && "rename"@ != "catalog"@ && "rename"@ != "open"@ && "rename"@ != "new"@ && "rename"@ != "send"@,
        "archive"@ != "hello"@ && "archive"@ != "list"@ && "archive"@ != "catalog"@ && "archive"@ != "open"@ && "archive"@ != "new"@ && "archive"@ != "send"@ && "archive"@ != "rename"@,
        "set-mode"@ != "hello"@ && "set-mode"@ != "list"@ && "set-mode"@ != "catalog"@ && "set-mode"@ != "open"@ && "set-mode"@ != "new"@ && "set-mode"@ != "send"@ && "set-mode"@ != "rename"@ && "set-mode"@ != "archive"@,
        "skills"@ != "hello"@ && "skills"@ != "list"@ && "skills"@ != "catalog"@ && "skills"@ != "open"@ && "skills"@ != "new"@ && "skills"@ != "send"@ && "skills"@ != "rename"@ && "skills"@ != "archive"@ && "skills"@ != "set-mode"@,
        "set-skill"@ != "hello"@ && "set-skill"@ != "list"@ && "set-skill"@ != "catalog"@ && "set-skill"@ != "open"@ && "set-skill"@ != "new"@ && "set-skill"@ != "send"@ && "set-skill"@ != "rename"@ && "set-skill"@ != "archive"@ && "set-skill"@ != "set-mode"@ && "set-skill"@ != "skills"@,
        "tools"@ != "hello"@ && "tools"@ != "list"@ && "tools"@ != "catalog"@ && "tools"@ != "open"@ && "tools"@ != "new"@ && "tools"@ != "send"@ && "tools"@ != "rename"@ && "tools"@ != "archive"@ && "tools"@ != "set-mode"@ && "tools"@ != "skills"@ && "tools"@ != "set-skill"@,
        "set-model"@ != "hello"@ && "set-model"@ != "list"@ && "set-model"@ != "catalog"@ && "set-model"@ != "open"@ && "set-model"@ != "new"@ && "set-model"@ != "send"@ && "set-model"@ != "rename"@ && "set-model"@ != "archive"@ && "set-model"@ != "set-mode"@ && "set-model"@ != "skills"@ && "set-model"@ != "set-skill"@ && "set-model"@ != "tools"@,
{
    reveal_strlit("hello");
    reveal_strlit("list");
    reveal_strlit("catalog");
    reveal_strlit("open");
    reveal_strlit("new");
    reveal_strlit("send");
    reveal_strlit("rename");
    reveal_strlit("archive");
    reveal_strlit("set-mode");
    reveal_strlit("skills");
    reveal_strlit("set-skill");
    reveal_strlit("tools");
    reveal_strlit("set-model");
    assert("hello"@.len() == 5 && "hello"@[0] == 'h');
    assert("list"@.len() == 4 && "list"@[0] == 'l');
    assert("catalog"@.len() == 7 && "catalog"@[0] == 'c');
    assert("open"@.len() == 4 && "open"@[0] == 'o');
    assert("new"@.len() == 3);
    assert("send"@.len() == 4 && "send"@[0] == 's');
    assert("rename"@.len() == 6 && "rename"@[0] == 'r');
    assert("archive"@.len() == 7 && "archive"@[0] == 'a');
    assert("set-mode"@.len() == 8);
    assert("skills"@.len() == 6 && "skills"@[0] == 's');
    assert("set-skill"@.len() == 9 && "set-skill"@[4] == 's');
    assert("tools"@.len() == 5 && "tools"@[0] == 't');
    assert("set-model"@.len() == 9 && "set-model"@[4] == 'm');
}

// --- what a frame comes to --------------------------------------------------

/// Whether a frame is of a kind.
pub open spec fn is_kind(frame: JsonView, kind: Seq<char>) -> bool {
    json::field(frame, "type"@) == Some(JsonView::Text(kind))
}

/// Whether a field of a frame is this text.
pub open spec fn gives(frame: JsonView, key: Seq<char>, value: Seq<char>) -> bool {
    json::field(frame, key) == Some(JsonView::Text(value))
}

/// Whether an optional text is a field of a frame.
pub open spec fn may_give(frame: JsonView, key: Seq<char>, value: Option<Seq<char>>) -> bool {
    match json::field(frame, key) {
        Some(JsonView::Text(s)) => value == Some(s),
        _ => value is None,
    }
}

/// Whether a step is one that a frame may ask for: of the frame's kind, for the frame's
/// session, with everything from the field of its own name.
pub open spec fn asked_by(step: StepView, frame: JsonView) -> bool {
    match step {
        StepView::Catalog => is_kind(frame, "hello"@) || is_kind(frame, "catalog"@),
        StepView::Sessions => is_kind(frame, "hello"@) || is_kind(frame, "list"@) || is_kind(
            frame,
            "rename"@,
        ) || is_kind(frame, "archive"@) || is_kind(frame, "set-mode"@) || is_kind(
            frame,
            "set-model"@,
        ),
        StepView::Settings(s) => gives(frame, "id"@, s) && (is_kind(frame, "set-mode"@) || is_kind(
            frame,
            "set-model"@,
        )),
        StepView::Skills(s) => gives(frame, "id"@, s) && (is_kind(frame, "skills"@) || is_kind(
            frame,
            "set-skill"@,
        )),
        StepView::Tools(s) => gives(frame, "id"@, s) && is_kind(frame, "tools"@),
        StepView::History(s) => gives(frame, "id"@, s) && is_kind(frame, "open"@),
        StepView::Create(title, previous) => is_kind(frame, "new"@) && may_give(
            frame,
            "title"@,
            title,
        ) && may_give(frame, "previous"@, previous),
        StepView::Rename(s, title) => is_kind(frame, "rename"@) && gives(frame, "id"@, s)
            && title.len() > 0 && (exists|raw: Seq<char>| #[trigger]
            gives(frame, "title"@, raw) && title == trimmed(raw)),
        StepView::Archive(s) => is_kind(frame, "archive"@) && gives(frame, "id"@, s),
        StepView::SetMode(s, mode) => is_kind(frame, "set-mode"@) && gives(frame, "id"@, s)
            && gives(frame, "mode"@, mode),
        StepView::SetModel(s, model) => is_kind(frame, "set-model"@) && gives(frame, "id"@, s)
            && gives(frame, "model"@, model),
        StepView::SetSkill(s, skill, on) => is_kind(frame, "set-skill"@) && gives(frame, "id"@, s)
            && gives(frame, "skill"@, skill) && json::field(frame, "enabled"@) == Some(
            JsonView::Bool(on),
        ),
        StepView::Submit(s, said, with) => is_kind(frame, "send"@) && gives(frame, "id"@, s)
            && said == trimmed(raw_words(frame)) && are_the_files(with, listed_files(frame)),
        StepView::Act(ActionView::Subscribe(s)) => is_kind(frame, "open"@) && gives(
            frame,
            "id"@,
            s,
        ),
        StepView::Act(ActionView::Unsubscribe(s)) => (is_kind(frame, "open"@) && gives(
            frame,
            "previous"@,
            s,
        ) && !gives(frame, "id"@, s)) || (is_kind(frame, "archive"@) && gives(frame, "id"@, s)),
        StepView::Act(ActionView::Broadcast(_, _)) => false,
        StepView::Act(ActionView::Reply(f)) => exists|message: Seq<char>|
            f == compact_text(#[trigger] error_tree(message)) && routed(frame).len() == 1,
    }
}

/// Every step comes from the frame's own kind and fields: nothing is done to a session
/// the frame does not name, with a value the frame does not give under that name.
pub proof fn law_every_step_was_asked_for(frame: JsonView, i: int)
    requires
        0 <= i < routed(frame).len(),
    ensures
        asked_by(routed(frame)[i], frame),
{
    reveal_strlit("");
    assert(""@ =~= Seq::<char>::empty());
    lemma_kind_is_no_blank();
    lemma_files(listed_files(frame));
    assert(attachments_in(Seq::<JsonView>::empty()) == Seq::<AttachmentView>::empty());
    if let Some(JsonView::Text(raw)) = json::field(frame, "title"@) {
        assert(gives(frame, "title"@, raw));
    }
    if let StepView::Act(ActionView::Reply(f)) = routed(frame)[i] {
        lemma_a_reply_is_a_fault(frame, i, f);
    }
}

/// No kind of frame is named by the empty word.
proof fn lemma_kind_is_no_blank()
    ensures
        ""@ != "hello"@ && ""@ != "list"@ && ""@ != "catalog"@ && ""@ != "open"@ && ""@ != "new"@,
        ""@ != "send"@ && ""@ != "rename"@ && ""@ != "archive"@ && ""@ != "set-mode"@,
        ""@ != "skills"@ && ""@ != "set-skill"@ && ""@ != "tools"@ && ""@ != "set-model"@,
{
    reveal_strlit("");
    reveal_strlit("hello");
    reveal_strlit("list");
    reveal_strlit("catalog");
    reveal_strlit("open");
    reveal_strlit("new");
    reveal_strlit("send");
    reveal_strlit("rename");
    reveal_strlit("archive");
    reveal_strlit("set-mode");
    reveal_strlit("skills");
    reveal_strlit("set-skill");
    reveal_strlit("tools");
    reveal_strlit("set-model");
    assert(""@.len() == 0);
    assert("hello"@.len() == 5);
    assert("list"@.len() == 4);
    assert("catalog"@.len() == 7);
    assert("open"@.len() == 4);
    assert("new"@.len() == 3);
    assert("send"@.len() == 4);
    assert("rename"@.len() == 6);
    assert("archive"@.len() == 7);
    assert("set-mode"@.len() == 8);
    assert("skills"@.len() == 6);
    assert("set-skill"@.len() == 9);
    assert("tools"@.len() == 5);
    assert("set-model"@.len() == 9);
}

proof fn lemma_a_reply_is_a_fault(frame: JsonView, i: int, f: Seq<char>)
    requires
        0 <= i < routed(frame).len(),
        routed(frame)[i] == StepView::Act(ActionView::Reply(f)),
    ensures
        exists|message: Seq<char>|
            f == compact_text(#[trigger] error_tree(message)) && routed(frame).len() == 1,
{
    assert(exists|m: Seq<char>| #[trigger] refused(m) == routed(frame));
    let m = choose|m: Seq<char>| #[trigger] refused(m) == routed(frame);
    assert(f == compact_text(error_tree(m)));
}

/// A frame with everything its kind needs is carried out: the change it asks for is
/// made, and the frames that show it follow.
pub proof fn law_a_complete_frame_is_carried_out(frame: JsonView, session: Seq<char>)
    requires
        gives(frame, "id"@, session),
    ensures
        ({
            let r = routed(frame);
            &&& is_kind(frame, "open"@) ==> r.contains(
                StepView::Act(ActionView::Subscribe(session)),
            ) && r.contains(StepView::History(session))
            &&& is_kind(frame, "archive"@) ==> r[0] == StepView::Archive(session) && r.contains(
                StepView::Act(ActionView::Unsubscribe(session)),
            ) && r.last() == StepView::Sessions && r.len() == 3
            &&& is_kind(frame, "set-mode"@) && text_field(frame, "mode"@) is Some ==> r[0]
                == StepView::SetMode(session, text_field(frame, "mode"@)->0) && r.contains(
                StepView::Settings(session),
            ) && r.contains(StepView::Sessions) && r.len() == 3
            &&& is_kind(frame, "set-model"@) && text_field(frame, "model"@) is Some ==> r[0]
                == StepView::SetModel(session, text_field(frame, "model"@)->0) && r.contains(
                StepView::Settings(session),
            ) && r.contains(StepView::Sessions) && r.len() == 3
            &&& is_kind(frame, "set-skill"@) && text_field(frame, "skill"@) is Some && bool_field(
                frame,
                "enabled"@,
            ) is Some ==> r[0] == StepView::SetSkill(
                session,
                text_field(frame, "skill"@)->0,
                bool_field(frame, "enabled"@)->0,
            ) && r.last() == StepView::Skills(session) && r.len() == 2
            &&& is_kind(frame, "rename"@) && (text_field(frame, "title"@) matches Some(t)
                && trimmed(t).len() > 0) ==> r[0] == StepView::Rename(
                session,
                trimmed(text_field(frame, "title"@)->0),
            ) && r.last() == StepView::Sessions && r.len() == 2
            &&& is_kind(frame, "skills"@) ==> r == seq![StepView::Skills(session)]
            &&& is_kind(frame, "tools"@) ==> r == seq![StepView::Tools(session)]
        }),
{
    lemma_kinds_differ();
    let r = routed(frame);
    if is_kind(frame, "open"@) {
        let n = r.len() as int;
        assert(r[n - 2] == StepView::Act(ActionView::Subscribe(session)));
        assert(r[n - 1] == StepView::History(session));
    }
    if is_kind(frame, "archive"@) {
        assert(r[1] == StepView::Act(ActionView::Unsubscribe(session)));
    }
    if is_kind(frame, "set-mode"@) && text_field(frame, "mode"@) is Some {
        assert(r[1] == StepView::Settings(session) && r[2] == StepView::Sessions);
    }
    if is_kind(frame, "set-model"@) && text_field(frame, "model"@) is Some {
        assert(r[1] == StepView::Settings(session) && r[2] == StepView::Sessions);
    }
}

/// The frames that need no session are answered too: a greeting with what the pickers
/// offer and the sessions, a request for either with it, and one for a new session by
/// making one.
pub proof fn law_frames_without_a_session_are_carried_out(frame: JsonView)
    ensures
        is_kind(frame, "hello"@) ==> routed(frame).contains(StepView::Catalog) && routed(
            frame,
        ).contains(StepView::Sessions),
        is_kind(frame, "list"@) ==> routed(frame).contains(StepView::Sessions),
        is_kind(frame, "catalog"@) ==> routed(frame).contains(StepView::Catalog),
        is_kind(frame, "new"@) ==> routed(frame).len() == 1 && routed(frame)[0] is Create,
{
    lemma_kinds_differ();
    if is_kind(frame, "hello"@) {
        assert(routed(frame)[0] == StepView::Catalog && routed(frame)[1] == StepView::Sessions);
    }
    if is_kind(frame, "list"@) {
        assert(routed(frame)[0] == StepView::Sessions);
    }
    if is_kind(frame, "catalog"@) {
        assert(routed(frame)[0] == StepView::Catalog);
    }
}

/// The sessions a connection watches after some steps.
pub open spec fn watched_after(watched: Set<Seq<char>>, steps: Seq<StepView>) -> Set<Seq<char>>
    decreases steps.len(),
{
    if steps.len() == 0 {
        watched
    } else {
        let before = watched_after(watched, steps.drop_last());
        match steps.last() {
            StepView::Act(ActionView::Subscribe(s)) => before.insert(s),
            StepView::Act(ActionView::Unsubscribe(s)) => before.remove(s),
            _ => before,
        }
    }
}

/// Turning to a session leaves the connection watching that one and no longer the one
/// before, and nothing else changes; so it is when a session was just made.
pub proof fn law_turning_leaves_one_session_for_another(
    watched: Set<Seq<char>>,
    session: Seq<char>,
    previous: Option<Seq<char>>,
)
    ensures
        ({
            let kept = match previous {
                Some(p) => watched.remove(p),
                None => watched,
            };
            &&& watched_after(watched, turned_to(session, previous)) == kept.insert(session)
            &&& watched_after(watched, after_creation(session, previous)) == kept.insert(session)
            &&& turned_to(session, previous).contains(StepView::History(session))
            &&& after_creation(session, previous).contains(StepView::Sessions)
            &&& after_creation(session, previous).last() == replied(opened_tree(session))
        }),
{
    reveal_with_fuel(watched_after, 7);
    let t = turned_to(session, previous);
    let c = after_creation(session, previous);
    assert(t.last() == StepView::History(session));
    assert(t[t.len() - 1] == StepView::History(session));
    assert(c[0] == StepView::Sessions);
    assert(c.drop_last() =~= seq![StepView::Sessions] + t);
    let lead = seq![StepView::Sessions];
    if previous matches Some(p) && p != session {
        let p = previous->0;
        assert(t =~= seq![
            StepView::Act(ActionView::Unsubscribe(p)),
            StepView::Act(ActionView::Subscribe(session)),
            StepView::History(session),
        ]);
        assert(watched_after(watched, t) =~= watched.remove(p).insert(session));
        assert(watched_after(watched, c) =~= watched.remove(p).insert(session));
    } else {
        assert(t =~= seq![
            StepView::Act(ActionView::Subscribe(session)),
            StepView::History(session),
        ]);
        assert(watched_after(watched, t) =~= watched.insert(session));
        assert(watched_after(watched, c) =~= watched.insert(session));
        if let Some(p) = previous {
            assert(watched.remove(p).insert(session) =~= watched.insert(session));
        }
    }
}

// --- what a frame back shows ------------------------------------------------

/// The words that name the fields of frames, told apart.
proof fn lemma_field_names()
    ensures
        "type"@.len() == 4 && "type"@[1] == 'y',
        "mode"@.len() == 4 && "mode"@[1] == 'o',
        "name"@.len() == 4 && "name"@[1] == 'a',
        "session"@.len() == 7 && "session"@[0] == 's',
        "message"@.len() == 7 && "message"@[0] == 'm',
        "enabled"@.len() == 7 && "enabled"@[0] == 'e',
        "title"@.len() == 5 && "title"@[0] == 't' && "title"@[1] == 'i',
        "model"@.len() == 5 && "model"@[0] == 'm' && "model"@[4] == 'l',
        "modes"@.len() == 5 && "modes"@[4] == 's' && "modes"@[0] == 'm',
        "label"@.len() == 5 && "label"@[0] == 'l',
        "tools"@.len() == 5 && "tools"@[0] == 't' && "tools"@[1] == 'o',
        "id"@.len() == 2,
        "description"@.len() == 11,
        "instructions"@.len() == 12 && "instructions"@[0] == 'i',
        "capabilities"@.len() == 12 && "capabilities"@[0] == 'c',
        "schema"@.len() == 6 && "schema"@[1] == 'c',
        "skills"@.len() == 6 && "skills"@[1] == 'k',
        "models"@.len() == 6 && "models"@[0] == 'm',
        "events"@.len() == 6 && "events"@[0] == 'e',
        "sessions"@.len() == 8,
{
    reveal_strlit("type");
    reveal_strlit("mode");
    reveal_strlit("name");
    reveal_strlit("session");
    reveal_strlit("message");
    reveal_strlit("enabled");
    reveal_strlit("title");
    reveal_strlit("model");
    reveal_strlit("modes");
    reveal_strlit("label");
    reveal_strlit("tools");
    reveal_strlit("id");
    reveal_strlit("description");
    reveal_strlit("instructions");
    reveal_strlit("capabilities");
    reveal_strlit("schema");
    reveal_strlit("skills");
    reveal_strlit("models");
    reveal_strlit("events");
    reveal_strlit("sessions");
}

/// What the pickers offer is every model and every mode, in order, each under its own
/// id with its own label.
pub proof fn law_the_pickers_offer_everything(
    models: Seq<ModelInfo>,
    modes: Seq<ModeInfo>,
    i: int,
)
    ensures
        ({
            let j = catalog_tree(models, modes);
            &&& text_field(j, "type"@) == Some("catalog"@)
            &&& array_field(j, "models"@) matches Some(a) && a.len() == models.len() && (0 <= i
                < models.len() ==> text_field(a[i], "id"@) == Some(models[i].id@) && text_field(
                a[i],
                "label"@,
            ) == Some(models[i].label@))
            &&& array_field(j, "modes"@) matches Some(b) && b.len() == modes.len() && (0 <= i
                < modes.len() ==> text_field(b[i], "id"@) == Some(modes[i].id@) && text_field(
                b[i],
                "label"@,
            ) == Some(modes[i].label@) && text_field(b[i], "description"@) == Some(
                modes[i].description@,
            ))
        }),
{
    lemma_field_names();
}

/// A session's settings are shown under its id, the mode as the mode and the model as
/// the model; its history with the title and with every event, in order.
pub proof fn law_a_session_is_shown_as_it_is(
    session: Seq<char>,
    meta: SessionMeta,
    events: Seq<JsonView>,
)
    ensures
        ({
            let s = settings_tree(session, Some(meta));
            let h = history_tree(session, Some(meta), events);
            &&& text_field(s, "type"@) == Some("settings"@)
            &&& text_field(s, "session"@) == Some(session)
            &&& text_field(s, "mode"@) == Some(meta.mode@)
            &&& text_field(s, "model"@) == Some(meta.model@)
            &&& text_field(h, "type"@) == Some("history"@)
            &&& text_field(h, "session"@) == Some(session)
            &&& text_field(h, "title"@) == Some(meta.title@)
            &&& text_field(h, "mode"@) == Some(meta.mode@)
            &&& text_field(h, "model"@) == Some(meta.model@)
            &&& array_field(h, "events"@) == Some(events)
        }),
{
    lemma_field_names();
}

/// The skills and the tools of a session are shown under its id, all of them in order,
/// each with its own fields.
pub proof fn law_skills_and_tools_are_shown_as_they_are(
    session: Seq<char>,
    skills: Seq<SkillInfo>,
    tools: Seq<ToolManifest>,
    i: int,
)
    ensures
        ({
            let s = skills_tree(session, skills);
            let t = tools_tree(session, tools);
            &&& text_field(s, "type"@) == Some("skills"@)
            &&& text_field(s, "session"@) == Some(session)
            &&& array_field(s, "skills"@) matches Some(a) && a.len() == skills.len() && (0 <= i
                < skills.len() ==> text_field(a[i], "id"@) == Some(skills[i].id@) && text_field(
                a[i],
                "name"@,
            ) == Some(skills[i].name@) && text_field(a[i], "description"@) == Some(
                skills[i].description@,
            ) && text_field(a[i], "instructions"@) == Some(skills[i].instructions@) && bool_field(
                a[i],
                "enabled"@,
            ) == Some(skills[i].enabled))
            &&& text_field(t, "type"@) == Some("tools"@)
            &&& text_field(t, "session"@) == Some(session)
            &&& array_field(t, "tools"@) matches Some(b) && b.len() == tools.len() && (0 <= i
                < tools.len() ==> text_field(b[i], "name"@) == Some(tools[i].name@) && text_field(
                b[i],
                "description"@,
            ) == Some(tools[i].description@) && text_field(b[i], "schema"@) == Some(
                tools[i].args_schema_json@,
            ))
        }),
{
    lemma_field_names();
}

/// The sessions are shown all of them in order, an opened session under its id, and a
/// fault with its message.
pub proof fn law_small_frames_say_what_they_are(
    list: Seq<JsonView>,
    session: Seq<char>,
    message: Seq<char>,
)
    ensures
        text_field(sessions_tree(list), "type"@) == Some("sessions"@),
        array_field(sessions_tree(list), "sessions"@) == Some(list),
        text_field(opened_tree(session), "type"@) == Some("opened"@),
        text_field(opened_tree(session), "session"@) == Some(session),
        text_field(error_tree(message), "type"@) == Some("error"@),
        text_field(error_tree(message), "message"@) == Some(message),
{
    lemma_field_names();
}

/// Whether a frame is answered with one fault that names something.
pub open spec fn refused_naming(frame: JsonView, what: Seq<char>) -> bool {
    exists|message: Seq<char>| #[trigger]
        refused(message) == routed(frame) && text::occurs(message, what)
}

/// A frame that says too little is answered with one fault that names its kind, and
/// nothing else is done: one about a session that gives no id, a change without what to
/// change to, and a frame of no kind that is known.
pub proof fn law_a_frame_that_says_too_little_is_refused(frame: JsonView, kind: Seq<char>)
    requires
        gives(frame, "type"@, kind),
    ensures
        ({
            let no_id = text_field(frame, "id"@) is None;
            &&& no_id && (kind == "open"@ || kind == "send"@ || kind == "rename"@ || kind
                == "archive"@ || kind == "set-mode"@ || kind == "skills"@ || kind == "set-skill"@
                || kind == "tools"@ || kind == "set-model"@) ==> refused_naming(frame, kind)
            &&& kind == "rename"@ && !(text_field(frame, "title"@) matches Some(t)
                && trimmed(t).len() > 0) ==> refused_naming(frame, kind)
            &&& kind == "set-mode"@ && text_field(frame, "mode"@) is None ==> refused_naming(
                frame,
                kind,
            )
            &&& kind == "set-model"@ && text_field(frame, "model"@) is None ==> refused_naming(
                frame,
                kind,
            )
            &&& kind == "set-skill"@ && (text_field(frame, "skill"@) is None || bool_field(
                frame,
                "enabled"@,
            ) is None) ==> refused_naming(frame, kind)
            &&& kind != "hello"@ && kind != "list"@ && kind != "catalog"@ && kind != "open"@ && kind
                != "new"@ && kind != "send"@ && kind != "rename"@ && kind != "archive"@ && kind
                != "set-mode"@ && kind != "skills"@ && kind != "set-skill"@ && kind != "tools"@
                && kind != "set-model"@ ==> refused_naming(frame, kind)
        }),
{
    lemma_kinds_differ();
    lemma_faults_name_their_kind();
    text::lemma_at_the_end("unknown frame type: "@, kind);
    let messages = seq![
        "open requires an id"@,
        "send requires an id"@,
        "rename requires an id and a title"@,
        "archive requires an id"@,
        "set-mode requires an id and a mode"@,
        "skills requires an id"@,
        "set-skill requires an id, a skill and enabled"@,
        "tools requires an id"@,
        "set-model requires an id and a model"@,
        "unknown frame type: "@ + kind,
    ];
    assert(refused(messages[0]).len() == 1 && refused(messages[1]).len() == 1);
    assert(refused(messages[2]).len() == 1 && refused(messages[3]).len() == 1);
    assert(refused(messages[4]).len() == 1 && refused(messages[5]).len() == 1);
    assert(refused(messages[6]).len() == 1 && refused(messages[7]).len() == 1);
    assert(refused(messages[8]).len() == 1 && refused(messages[9]).len() == 1);
}

/// The faults of frames begin with the kind they are about.
proof fn lemma_faults_name_their_kind()
    ensures
        text::occurs("open requires an id"@, "open"@),
        text::occurs("send requires an id"@, "send"@),
        text::occurs("rename requires an id and a title"@, "rename"@),
        text::occurs("archive requires an id"@, "archive"@),
        text::occurs("set-mode requires an id and a mode"@, "set-mode"@),
        text::occurs("skills requires an id"@, "skills"@),
        text::occurs("set-skill requires an id, a skill and enabled"@, "set-skill"@),
        text::occurs("tools requires an id"@, "tools"@),
        text::occurs("set-model requires an id and a model"@, "set-model"@),
{
    reveal_strlit("open");
    reveal_strlit("open requires an id");
    assert("open requires an id"@.subrange(0, 4) =~= "open"@);
    assert(text::occurs_at("open requires an id"@, "open"@, 0));
    reveal_strlit("send");
    reveal_strlit("send requires an id");
    assert("send requires an id"@.subrange(0, 4) =~= "send"@);
    assert(text::occurs_at("send requires an id"@, "send"@, 0));
    reveal_strlit("rename");
    reveal_strlit("rename requires an id and a title");
    assert("rename requires an id and a title"@.subrange(0, 6) =~= "rename"@);
    assert(text::occurs_at("rename requires an id and a title"@, "rename"@, 0));
    reveal_strlit("archive");
    reveal_strlit("archive requires an id");
    assert("archive requires an id"@.subrange(0, 7) =~= "archive"@);
    assert(text::occurs_at("archive requires an id"@, "archive"@, 0));
    reveal_strlit("set-mode");
    reveal_strlit("set-mode requires an id and a mode");
    assert("set-mode requires an id and a mode"@.subrange(0, 8) =~= "set-mode"@);
    assert(text::occurs_at("set-mode requires an id and a mode"@, "set-mode"@, 0));
    reveal_strlit("skills");
    reveal_strlit("skills requires an id");
    assert("skills requires an id"@.subrange(0, 6) =~= "skills"@);
    assert(text::occurs_at("skills requires an id"@, "skills"@, 0));
    reveal_strlit("set-skill");
    reveal_strlit("set-skill requires an id, a skill and enabled");
    assert("set-skill requires an id, a skill and enabled"@.subrange(0, 9) =~= "set-skill"@);
    assert(text::occurs_at("set-skill requires an id, a skill and enabled"@, "set-skill"@, 0));
    reveal_strlit("tools");
    reveal_strlit("tools requires an id");
    assert("tools requires an id"@.subrange(0, 5) =~= "tools"@);
    assert(text::occurs_at("tools requires an id"@, "tools"@, 0));
    reveal_strlit("set-model");
    reveal_strlit("set-model requires an id and a model");
    assert("set-model requires an id and a model"@.subrange(0, 9) =~= "set-model"@);
    assert(text::occurs_at("set-model requires an id and a model"@, "set-model"@, 0));
}

} // verus!
