use genesis::gateway::{Renderer, RENDERER_MAX_CALLS};
use genesis::handlers;
use genesis::handlers::{dispatch, opened, GatewayAction, Step};
use genesis::harness::RenderedFrame;
use genesis::json;
use genesis::time::Span;
use genesis::types::{Attachment, ModeInfo, ModelInfo, SessionMeta, SkillInfo, ToolManifest};
use genesis::web;
use genesis::web::{Asset, Connection, Incoming, Outgoing, PageBody};

fn route(frame: &str) -> Vec<Step> {
    dispatch(&json::parse(frame).unwrap())
}

fn error(message: &str) -> Vec<Step> {
    vec![Step::Act(handlers::error(message))]
}

#[test]
fn a_new_browser_gets_the_catalog_and_the_sessions() {
    assert_eq!(route(r#"{"type":"hello"}"#), vec![Step::Catalog, Step::Sessions]);
    assert_eq!(route(r#"{"type":"list"}"#), vec![Step::Sessions]);
    assert_eq!(route(r#"{"type":"catalog"}"#), vec![Step::Catalog]);
}

#[test]
fn opening_lets_go_of_what_was_watched() {
    assert_eq!(
        route(r#"{"type":"open","id":"b","previous":"a"}"#),
        vec![
            Step::Act(GatewayAction::Unsubscribe("a".into())),
            Step::Act(GatewayAction::Subscribe("b".into())),
            Step::History("b".into()),
        ]
    );
    assert_eq!(
        route(r#"{"type":"open","id":"b","previous":"b"}"#),
        vec![
            Step::Act(GatewayAction::Subscribe("b".into())),
            Step::History("b".into()),
        ]
    );
    assert_eq!(route(r#"{"type":"open"}"#), error("open requires an id"));
}

#[test]
fn a_new_session_is_opened_once_it_has_an_id() {
    assert_eq!(
        route(r#"{"type":"new","title":"T","previous":"p"}"#),
        vec![Step::Create(Some("T".into()), Some("p".into()))]
    );
    assert_eq!(
        opened("n", &Some("p".to_string())),
        vec![
            Step::Sessions,
            Step::Act(GatewayAction::Unsubscribe("p".into())),
            Step::Act(GatewayAction::Subscribe("n".into())),
            Step::History("n".into()),
            Step::Act(GatewayAction::Reply(r#"{"session":"n","type":"opened"}"#.into())),
        ]
    );
}

#[test]
fn an_empty_message_is_no_turn() {
    assert_eq!(route(r#"{"type":"send","id":"s","text":"  "}"#), Vec::new());
    assert_eq!(
        route(r#"{"type":"send","id":"s","text":" hi "}"#),
        vec![Step::Submit("s".into(), "hi".into(), Vec::new())]
    );
    assert_eq!(
        route(
            r#"{"type":"send","id":"s","attachments":[{"name":"a","mime":"m","data":"d"},{"name":"x"},3]}"#
        ),
        vec![Step::Submit(
            "s".into(),
            "".into(),
            vec![Attachment { name: "a".into(), mime: "m".into(), data_base64: "d".into() }]
        )]
    );
    assert_eq!(route(r#"{"type":"send"}"#), error("send requires an id"));
}

#[test]
fn frames_that_lack_something_are_refused() {
    assert_eq!(
        route(r#"{"type":"rename","id":"s","title":" "}"#),
        error("rename requires an id and a title")
    );
    assert_eq!(
        route(r#"{"type":"rename","id":"s","title":" t "}"#),
        vec![Step::Rename("s".into(), "t".into()), Step::Sessions]
    );
    assert_eq!(
        route(r#"{"type":"archive","id":"s"}"#),
        vec![
            Step::Archive("s".into()),
            Step::Act(GatewayAction::Unsubscribe("s".into())),
            Step::Sessions
        ]
    );
    assert_eq!(route(r#"{"type":"archive"}"#), error("archive requires an id"));
    assert_eq!(
        route(r#"{"type":"set-mode","id":"s","mode":"plan"}"#),
        vec![
            Step::SetMode("s".into(), "plan".into()),
            Step::Settings("s".into()),
            Step::Sessions
        ]
    );
    assert_eq!(
        route(r#"{"type":"set-mode","id":"s"}"#),
        error("set-mode requires an id and a mode")
    );
    assert_eq!(
        route(r#"{"type":"set-model","id":"s","model":"m"}"#),
        vec![
            Step::SetModel("s".into(), "m".into()),
            Step::Settings("s".into()),
            Step::Sessions
        ]
    );
    assert_eq!(
        route(r#"{"type":"set-model","model":"m"}"#),
        error("set-model requires an id and a model")
    );
    assert_eq!(
        route(r#"{"type":"set-skill","id":"s","skill":"k","enabled":true}"#),
        vec![Step::SetSkill("s".into(), "k".into(), true), Step::Skills("s".into())]
    );
    assert_eq!(
        route(r#"{"type":"set-skill","id":"s","skill":"k","enabled":"yes"}"#),
        error("set-skill requires an id, a skill and enabled")
    );
    assert_eq!(route(r#"{"type":"skills"}"#), error("skills requires an id"));
    assert_eq!(route(r#"{"type":"tools"}"#), error("tools requires an id"));
    assert_eq!(route(r#"{"type":"tools","id":"s"}"#), vec![Step::Tools("s".into())]);
    assert_eq!(route(r#"{"type":"dance"}"#), error("unknown frame type: dance"));
    assert_eq!(route(r#"[]"#), error("unknown frame type: "));
}

fn meta() -> SessionMeta {
    SessionMeta {
        id: "s".into(),
        title: "T".into(),
        mode: "agent".into(),
        model: "m".into(),
    }
}

#[test]
fn frames_carry_what_the_harness_knows() {
    let models = vec![ModelInfo { id: "a".into(), label: "A".into() }];
    let modes = vec![ModeInfo {
        id: "p".into(),
        label: "P".into(),
        description: "d".into(),
        read_only: true,
        prompt: String::new(),
    }];
    assert_eq!(
        handlers::catalog(&models, &modes),
        GatewayAction::Reply(
            r#"{"models":[{"id":"a","label":"A"}],"modes":[{"description":"d","id":"p","label":"P"}],"type":"catalog"}"#
                .into()
        )
    );
    assert_eq!(
        handlers::session_settings("s", &Some(meta())),
        GatewayAction::Reply(
            r#"{"mode":"agent","model":"m","session":"s","type":"settings"}"#.into()
        )
    );
    assert_eq!(
        handlers::session_settings("s", &None),
        GatewayAction::Reply(r#"{"mode":"","model":"","session":"s","type":"settings"}"#.into())
    );
    assert_eq!(
        handlers::history("s", &Some(meta()), vec![json::parse("1").unwrap()]),
        GatewayAction::Reply(
            r#"{"events":[1],"mode":"agent","model":"m","session":"s","title":"T","type":"history"}"#
                .into()
        )
    );
    assert_eq!(
        handlers::sessions(vec![json::parse(r#"{"id":"s"}"#).unwrap()]),
        GatewayAction::Reply(r#"{"sessions":[{"id":"s"}],"type":"sessions"}"#.into())
    );
    let skill = SkillInfo {
        id: "i".into(),
        name: "n".into(),
        description: "d".into(),
        instructions: "x".into(),
        enabled: true,
    };
    assert_eq!(
        handlers::skills("s", &vec![skill]),
        GatewayAction::Reply(
            r#"{"session":"s","skills":[{"description":"d","enabled":true,"id":"i","instructions":"x","name":"n"}],"type":"skills"}"#
                .into()
        )
    );
    let tool = ToolManifest {
        name: "n".into(),
        description: "d".into(),
        args_schema_json: "{}".into(),
        capabilities: vec!["sandbox".into()],
    };
    assert_eq!(
        handlers::tools("s", &vec![tool]),
        GatewayAction::Reply(
            r#"{"session":"s","tools":[{"capabilities":["sandbox"],"description":"d","name":"n","schema":"{}"}],"type":"tools"}"#
                .into()
        )
    );
}

// --- connections ------------------------------------------------------------

fn frame(session: &str) -> Incoming {
    Incoming::Frame(RenderedFrame { session_id: session.into(), frame: "f".into() })
}

#[test]
fn a_tab_sees_only_what_it_watches() {
    let mut c = Connection::new();
    assert_eq!(c.step(frame("a")), Outgoing::Wait);
    assert_eq!(
        c.step(Incoming::Action(GatewayAction::Subscribe("a".into()))),
        Outgoing::Wait
    );
    assert_eq!(c.step(frame("a")), Outgoing::Send("f".into()));
    assert_eq!(c.step(frame("b")), Outgoing::Wait);
    assert_eq!(
        c.step(Incoming::Action(GatewayAction::Unsubscribe("a".into()))),
        Outgoing::Wait
    );
    assert_eq!(c.step(frame("a")), Outgoing::Wait);
}

#[test]
fn a_connection_ends_when_it_is_gone() {
    let mut c = Connection::new();
    assert_eq!(c.step(Incoming::Text("x".into())), Outgoing::Ask("x".into()));
    assert_eq!(c.step(Incoming::Other), Outgoing::Wait);
    assert_eq!(c.step(Incoming::Lagged), Outgoing::Wait);
    assert_eq!(
        c.step(Incoming::Rejected("why".into())),
        Outgoing::Try(r#"{"message":"why","type":"error"}"#.into())
    );
    assert_eq!(
        c.step(Incoming::Action(GatewayAction::Reply("r".into()))),
        Outgoing::Send("r".into())
    );
    assert_eq!(
        c.step(Incoming::Action(GatewayAction::Broadcast("s".into(), "f".into()))),
        Outgoing::Publish(RenderedFrame { session_id: "s".into(), frame: "f".into() })
    );
    assert_eq!(c.step(Incoming::Gone), Outgoing::Stop);
    assert_eq!(c.step(Incoming::Ended), Outgoing::Stop);
    assert_eq!(c.step(Incoming::Undelivered), Outgoing::Stop);
}

#[test]
fn a_busy_address_is_waited_for() {
    assert!(web::bind_again(true, Span::from_millis(14_999)));
    assert!(!web::bind_again(true, Span::from_secs(15)));
    assert!(!web::bind_again(false, Span::from_secs(0)));
    assert_eq!(web::bind_fault("1.2.3.4:5", "busy"), "binding 1.2.3.4:5: busy");
}

#[test]
fn a_broken_gateway_gets_a_page_of_the_host() {
    let ok = web::asset_response(Ok(Some(Asset { mime: "text/css".into(), bytes: vec![1] })));
    assert_eq!((ok.status, ok.mime.as_deref()), (200, Some("text/css")));
    assert_eq!(ok.body, PageBody::Bytes(vec![1]));
    let missing = web::asset_response(Ok(None));
    assert_eq!(missing.status, 404);
    assert_eq!(missing.body, PageBody::Plain("not found".into()));
    let broken = web::asset_response(Err("trap".into()));
    assert_eq!(broken.status, 503);
    assert!(matches!(broken.body, PageBody::Html(ref s) if s.contains("trap")));
    assert_eq!(web::asset_path("app.js"), "/app.js");
}

#[test]
fn the_renderer_is_recycled_on_swap_trap_and_age() {
    let mut r = Renderer::new();
    assert!(r.needs_refresh(Some(1)));
    assert!(!r.begin());
    r.refreshed(Some(1));
    assert!(!r.needs_refresh(Some(1)));
    assert!(r.needs_refresh(Some(2)), "a swap");
    assert!(r.needs_refresh(None));
    for _ in 0..RENDERER_MAX_CALLS {
        assert!(!r.needs_refresh(Some(1)));
        assert!(r.begin());
    }
    assert!(r.needs_refresh(Some(1)), "age");
    r.refreshed(Some(1));
    r.trapped();
    assert!(r.needs_refresh(Some(1)), "a trap");
}
