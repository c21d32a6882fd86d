//! HTTP and WebSocket transport: what is decided about connections.
//!
//! The host owns the listener and the connections; the gateway component owns
//! the UI and the wire protocol.
use vstd::prelude::*;

use crate::admin;
use crate::admin::{escaped, FALLBACK_HEAD, FALLBACK_TAIL};
use crate::handlers::{error_tree, ActionView, GatewayAction};
use crate::harness::RenderedFrame;
use crate::json::{compact_text, Json};
use crate::table::Table;
use crate::time::Span;

verus! {

// --- listening --------------------------------------------------------------

/// How long an address in use is waited for. A restart spawns the replacement
/// before the old process exits, so the new one arrives while the old still
/// holds the port.
pub const PATIENCE_SECS: u64 = 15;

/// How long to wait between attempts, in milliseconds.
pub const BIND_PAUSE_MS: u64 = 250;

/// Whether binding is tried again: only an address in use is waited for, and
/// only so long.
pub fn bind_again(in_use: bool, waited: Span) -> (r: bool)
    requires
        waited.ok(),
    ensures
        r == (in_use && waited.total() < PATIENCE_SECS * 1_000_000_000),
{
    let patience = Span::from_secs(PATIENCE_SECS);
    in_use && waited.shorter_than(&patience)
}

/// The message for an address that cannot be bound.
pub fn bind_fault(addr: &str, e: &str) -> (r: String)
    ensures
        r@ == "binding "@ + addr@ + ": "@ + e@,
{
    "binding ".to_owned().concat(addr).concat(": ").concat(e)
}

// --- assets -----------------------------------------------------------------

/// A file the gateway serves.
#[derive(Debug, PartialEq, Eq)]
pub struct Asset {
    /// Its media type.
    pub mime: String,
    /// Its contents.
    pub bytes: Vec<u8>,
}

/// How a request is answered.
#[derive(Debug, PartialEq, Eq)]
pub struct Page {
    /// The HTTP status.
    pub status: u16,
    /// The media type, where the page has one of its own.
    pub mime: Option<String>,
    /// The contents.
    pub body: PageBody,
}

/// The contents of a page.
#[derive(Debug, PartialEq, Eq)]
pub enum PageBody {
    /// A file.
    Bytes(Vec<u8>),
    /// Plain text.
    Plain(String),
    /// HTML.
    Html(String),
}

/// How a request for an asset is answered. Where the gateway is broken or
/// missing, a page rendered by the host takes its place, so the user is never
/// staring at a dead socket.
pub fn asset_response(served: Result<Option<Asset>, String>) -> (r: Page)
    ensures
        match served {
            Ok(Some(asset)) => r.status == 200 && r.mime == Some(asset.mime) && r.body
                == PageBody::Bytes(asset.bytes),
            Ok(None) => r.status == 404 && r.mime is None && (r.body matches PageBody::Plain(s)
                && s@ == "not found"@),
            Err(detail) => r.status == 503 && r.mime is None && (r.body matches PageBody::Html(s)
                && s@ == FALLBACK_HEAD@ + escaped(detail@) + FALLBACK_TAIL@),
        },
{
    match served {
        Ok(Some(asset)) => Page {
            status: 200,
            mime: Some(asset.mime),
            body: PageBody::Bytes(asset.bytes),
        },
        Ok(None) => Page {
            status: 404,
            mime: None,
            body: PageBody::Plain("not found".to_owned()),
        },
        Err(detail) => Page {
            status: 503,
            mime: None,
            body: PageBody::Html(admin::fallback_page(detail.as_str())),
        },
    }
}

/// The path the gateway is asked for, given what a route matched.
pub fn asset_path(matched: &str) -> (r: String)
    ensures
        r@ == "/"@ + matched@,
{
    "/".to_owned().concat(matched)
}

// --- connections ------------------------------------------------------------

/// The frame that reports a fault.
pub fn error_frame(detail: &str) -> (r: String)
    ensures
        r@ == compact_text(error_tree(detail@)),
{
    Json::object().with("type", Json::text("error")).with("message", Json::text(detail)).to_text()
}

/// Something that happened on a connection.
#[derive(Debug, PartialEq, Eq)]
pub enum Incoming {
    /// The client sent text.
    Text(String),
    /// The client sent something else that needs no answer.
    Other,
    /// The client closed the connection, or it broke.
    Gone,
    /// The gateway turned a message into an action.
    Action(GatewayAction),
    /// The gateway could not handle a message.
    Rejected(String),
    /// A frame was published.
    Frame(RenderedFrame),
    /// Frames were published faster than they were read.
    Lagged,
    /// No more frames will be published.
    Ended,
    /// A frame that had to arrive could not be sent.
    Undelivered,
}

/// What is done about it.
#[derive(Debug, PartialEq, Eq)]
pub enum Outgoing {
    /// Nothing.
    Wait,
    /// Asks the gateway what a message means.
    Ask(String),
    /// Sends a frame, and gives the connection up where that fails.
    Send(String),
    /// Sends a frame, whether or not it arrives.
    Try(String),
    /// Publishes a frame to everyone who watches its session.
    Publish(RenderedFrame),
    /// Ends the connection.
    Stop,
}

/// What is done about it, as text.
pub enum OutgoingView {
    /// Nothing.
    Wait,
    /// Asks the gateway what a message means.
    Ask(Seq<char>),
    /// Sends a frame, and gives the connection up where that fails.
    Send(Seq<char>),
    /// Sends a frame, whether or not it arrives.
    Try(Seq<char>),
    /// Publishes a frame to everyone who watches its session.
    Publish(Seq<char>, Seq<char>),
    /// Ends the connection.
    Stop,
}

impl View for Outgoing {
    type V = OutgoingView;

    open spec fn view(&self) -> OutgoingView {
        match self {
            Outgoing::Wait => OutgoingView::Wait,
            Outgoing::Ask(t) => OutgoingView::Ask(t@),
            Outgoing::Send(f) => OutgoingView::Send(f@),
            Outgoing::Try(f) => OutgoingView::Try(f@),
            Outgoing::Publish(f) => OutgoingView::Publish(f.session_id@, f.frame@),
            Outgoing::Stop => OutgoingView::Stop,
        }
    }
}

/// One browser tab: the sessions it is watching.
pub struct Connection {
    watching: Table<()>,
}

impl View for Connection {
    type V = Set<Seq<char>>;

    closed spec fn view(&self) -> Set<Seq<char>> {
        self.watching@.dom()
    }
}

/// What is watched after something happened, and what is done about it.
pub open spec fn connected(watching: Set<Seq<char>>, event: Incoming) -> (
    Set<Seq<char>>,
    OutgoingView,
) {
    match event {
        Incoming::Text(t) => (watching, OutgoingView::Ask(t@)),
        Incoming::Other => (watching, OutgoingView::Wait),
        Incoming::Gone => (watching, OutgoingView::Stop),
        Incoming::Action(a) => match a@ {
            ActionView::Reply(frame) => (watching, OutgoingView::Send(frame)),
            ActionView::Broadcast(session, frame) => (
                watching,
                OutgoingView::Publish(session, frame),
            ),
            ActionView::Subscribe(session) => (watching.insert(session), OutgoingView::Wait),
            ActionView::Unsubscribe(session) => (watching.remove(session), OutgoingView::Wait),
        },
        Incoming::Rejected(detail) => (
            watching,
            OutgoingView::Try(compact_text(error_tree(detail@))),
        ),
        Incoming::Frame(f) => (
            watching,
            if watching.contains(f.session_id@) {
                OutgoingView::Send(f.frame@)
            } else {
                OutgoingView::Wait
            },
        ),
        Incoming::Lagged => (watching, OutgoingView::Wait),
        Incoming::Ended => (watching, OutgoingView::Stop),
        Incoming::Undelivered => (watching, OutgoingView::Stop),
    }
}

impl Connection {
    /// A connection that watches nothing yet.
    pub fn new() -> (r: Connection)
        ensures
            r@ == Set::<Seq<char>>::empty(),
    {
        let r = Connection { watching: Table::new() };
        assert(r@ =~= Set::<Seq<char>>::empty());
        r
    }

    /// Decides what to do about something that happened.
    pub fn step(&mut self, event: Incoming) -> (r: Outgoing)
        ensures
            (final(self)@, r@) == connected(old(self)@, event),
    {
        let ghost was = self@;
        match event {
            Incoming::Text(t) => Outgoing::Ask(t),
            Incoming::Other => Outgoing::Wait,
            Incoming::Gone => Outgoing::Stop,
            Incoming::Action(action) => match action {
                GatewayAction::Reply(frame) => Outgoing::Send(frame),
                GatewayAction::Broadcast(session_id, frame) => Outgoing::Publish(
                    RenderedFrame { session_id, frame },
                ),
                GatewayAction::Subscribe(session) => {
                    let ghost s = session@;
                    let _ = self.watching.insert(session, ());
                    assert(self@ =~= was.insert(s));
                    Outgoing::Wait
                },
                GatewayAction::Unsubscribe(session) => {
                    let _ = self.watching.remove(session.as_str());
                    assert(self@ =~= was.remove(session@));
                    Outgoing::Wait
                },
            },
            Incoming::Rejected(detail) => Outgoing::Try(error_frame(detail.as_str())),
            Incoming::Frame(f) => if self.watching.contains_key(f.session_id.as_str()) {
                Outgoing::Send(f.frame)
            } else {
                Outgoing::Wait
            },
            Incoming::Lagged => Outgoing::Wait,
            Incoming::Ended => Outgoing::Stop,
            Incoming::Undelivered => Outgoing::Stop,
        }
    }
}

/// A tab is sent the frames of the sessions it watches, and of no other.
pub proof fn law_a_tab_sees_what_it_watches(watching: Set<Seq<char>>, f: RenderedFrame)
    ensures
        connected(watching, Incoming::Frame(f)).1 == if watching.contains(f.session_id@) {
            OutgoingView::Send(f.frame@)
        } else {
            OutgoingView::Wait
        },
        connected(watching, Incoming::Frame(f)).0 == watching,
{
}

/// Only subscribing and unsubscribing change what is watched.
pub proof fn law_only_subscriptions_change_what_is_watched(
    watching: Set<Seq<char>>,
    event: Incoming,
    session: Seq<char>,
)
    ensures
        connected(watching, event).0.contains(session) != watching.contains(session) ==> (
        event matches Incoming::Action(a) && (a@ == ActionView::Subscribe(session) || a@
            == ActionView::Unsubscribe(session))),
{
}

/// A fault in the gateway never ends a connection: the client is told, and the
/// connection goes on.
pub proof fn law_a_rejected_message_keeps_the_connection(
    watching: Set<Seq<char>>,
    detail: String,
)
    ensures
        connected(watching, Incoming::Rejected(detail)).1 is Try,
        connected(watching, Incoming::Rejected(detail)).0 == watching,
{
}

/// Every event is answered in its own way: what the client says is asked of the
/// gateway, a reply is sent back, a broadcast is published to its session, a
/// subscription is kept and an end of one dropped, and a connection that is gone, or
/// that could not be served, ends.
pub proof fn law_every_event_is_answered(
    watching: Set<Seq<char>>,
    t: String,
    a: GatewayAction,
    session: Seq<char>,
    frame: Seq<char>,
)
    ensures
        connected(watching, Incoming::Text(t)).1 == OutgoingView::Ask(t@),
        a@ == ActionView::Reply(frame) ==> connected(watching, Incoming::Action(a)).1
            == OutgoingView::Send(frame),
        a@ == ActionView::Broadcast(session, frame) ==> connected(watching, Incoming::Action(a)).1
            == OutgoingView::Publish(session, frame),
        a@ == ActionView::Subscribe(session) ==> connected(
            watching,
            Incoming::Action(a),
        ).0.contains(session),
        a@ == ActionView::Unsubscribe(session) ==> !connected(
            watching,
            Incoming::Action(a),
        ).0.contains(session),
        connected(watching, Incoming::Gone).1 is Stop,
        connected(watching, Incoming::Ended).1 is Stop,
        connected(watching, Incoming::Undelivered).1 is Stop,
        connected(watching, Incoming::Lagged).1 is Wait,
        connected(watching, Incoming::Other).1 is Wait,
{
}

/// What went wrong with a message is sent to whoever sent it, in a frame that says so.
pub proof fn law_a_rejection_says_why(watching: Set<Seq<char>>, detail: String)
    ensures
        connected(watching, Incoming::Rejected(detail)).1 == OutgoingView::Try(
            compact_text(error_tree(detail@)),
        ),
        crate::json::text_field(error_tree(detail@), "message"@) == Some(detail@),
        crate::json::text_field(error_tree(detail@), "type"@) == Some("error"@),
{
    crate::handlers::law_small_frames_say_what_they_are(Seq::empty(), detail@, detail@);
}

} // verus!
