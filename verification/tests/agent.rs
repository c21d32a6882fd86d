use genesis::dispatch;
use genesis::dispatch::{Reply as Answer, Request};
use genesis::json;
use genesis::json::Json;
use genesis::memory::{index_after, memory_keys};
use genesis::report;
use genesis::tools;
use genesis::tools::Access;
use genesis::turn;
use genesis::turn::{Action, Event, FinishInfo, Reply, Stop, StreamChunk, Turn};
use genesis::types::{
    ConfigEntry, ExecResult, InboxItem, LlmError, ModTarget, ModeInfo, RollbackTarget, SessionEvent,
    SkillInfo, TerminalOutput, TokenUsage, ToolCall, ToolManifest, ToolOutcome, UserMsg,
};

fn modes() -> Vec<ModeInfo> {
    let mode = |id: &str, read_only: bool| ModeInfo {
        id: id.into(),
        label: id.into(),
        description: String::new(),
        read_only,
        prompt: String::new(),
    };
    vec![mode("agent", false), mode("plan", true)]
}

fn everything() -> Access {
    Access { sandbox: true, devkit: true, filesystem: true, terminal: true, restart: true }
}

fn nothing() -> Access {
    Access { sandbox: false, devkit: false, filesystem: false, terminal: false, restart: false }
}

#[test]
fn tools_appear_with_their_capability() {
    let all: Vec<&str> =
        tools::available("agent", everything(), &modes()).iter().map(|t| t.name).collect();
    for name in ["remember", "exec", "write_code", "read_path", "terminal_run", "restart_orchestrator"] {
        assert!(all.contains(&name), "{name}");
    }
    let few: Vec<&str> =
        tools::available("agent", nothing(), &modes()).iter().map(|t| t.name).collect();
    assert!(few.contains(&"recall"));
    assert!(!few.contains(&"exec"));
    assert!(!few.contains(&"write_code"));
}

#[test]
fn no_two_tools_share_a_name() {
    for access in [everything(), nothing()] {
        for mode in ["agent", "plan", "other"] {
            let all = tools::available(mode, access, &modes());
            assert!(!all.is_empty());
            for i in 0..all.len() {
                for j in 0..i {
                    assert_ne!(all[i].name, all[j].name);
                }
            }
        }
    }
}

#[test]
fn a_read_only_mode_offers_nothing_that_changes_things() {
    for tool in tools::available("plan", everything(), &modes()) {
        assert!(!tool.mutating, "{}", tool.name);
    }
    assert!(tools::is_mutating("exec", everything(), &modes()));
    assert!(!tools::is_mutating("recall", everything(), &modes()));
    // A tool is judged by what it declares whether or not it is on offer.
    assert!(!tools::is_mutating("read_file", nothing(), &modes()));
    assert!(tools::is_mutating("exec", nothing(), &modes()));
    assert!(tools::is_mutating("weather", everything(), &modes()));
    let component = ToolManifest {
        name: "weather".into(),
        description: "d".into(),
        args_schema_json: "{\"type\":\"object\"}".into(),
        capabilities: Vec::new(),
    };
    let shown = tools::manifests("plan", nothing(), &modes(), &vec![component.copy()]);
    assert!(shown.iter().all(|m| m.name != "weather"));
    let shown = tools::manifests("agent", nothing(), &modes(), &vec![component.copy()]);
    assert!(shown.iter().any(|m| m.name == "weather"));
    let defs = tools::definitions("agent", nothing(), &modes(), &vec![component]);
    assert!(defs.iter().any(|d| d.to_text().contains("\"weather\"")));
}

#[test]
fn calls_are_read_from_their_arguments() {
    let call = |name: &str, args: &str| dispatch::request_for(name, &json::parse(args).unwrap());
    assert_eq!(
        call("remember", r#"{"key":"k","value":"v"}"#).unwrap(),
        Request::Remember { key: "k".into(), value: "v".into() }
    );
    assert!(call("remember", r#"{"key":"__x","value":"v"}"#).unwrap_err().contains("reserved"));
    assert!(call("remember", r#"{"key":"k"}"#).is_err());
    assert_eq!(
        call("rollback", r#"{"target":"agent","revision":3}"#).unwrap(),
        Request::Rollback { target: RollbackTarget::AgentSelf, revision: Some(3) }
    );
    assert_eq!(call("weather", "{}").unwrap(), Request::Component { name: "weather".into() });
    assert_eq!(
        dispatch::parse_mod_target("tool:weather").unwrap(),
        ModTarget::Tool("weather".into())
    );
    assert!(dispatch::parse_mod_target("nonsense").is_err());
    assert!(dispatch::parse_rollback_target("nonsense").is_err());
}

#[test]
fn a_read_only_mode_refuses_changes() {
    let refused = dispatch::invoke(
        "plan",
        everything(),
        &modes(),
        "write_path",
        r#"{"path":"a","contents":"b"}"#,
    );
    assert!(refused.is_err());
    let allowed = dispatch::invoke(
        "agent",
        everything(),
        &modes(),
        "write_path",
        r#"{"path":"a","contents":"b"}"#,
    );
    assert!(allowed.is_ok());
    assert!(dispatch::invoke("agent", everything(), &modes(), "recall", "{").is_err());
}

#[test]
fn answers_are_put_into_words() {
    let saved = Request::Remember { key: "k".into(), value: "v".into() };
    assert_eq!(dispatch::conclude(&saved, Answer::Saved).unwrap(), "remembered 'k'");
    let recall = Request::Recall { key: Some("k".into()) };
    assert_eq!(
        dispatch::conclude(&recall, Answer::Note(None)).unwrap_err(),
        "nothing remembered under 'k'"
    );
    assert_eq!(dispatch::conclude(&recall, Answer::Note(Some("v".into()))).unwrap(), "v");
    let all = Request::Recall { key: None };
    assert_eq!(
        dispatch::conclude(&all, Answer::Notes(Vec::new())).unwrap(),
        "nothing remembered yet"
    );
    assert_eq!(
        dispatch::conclude(
            &all,
            Answer::Notes(vec![("a".into(), Some("1".into())), ("b".into(), None)])
        )
        .unwrap(),
        "a: 1\nb: "
    );
}

#[test]
fn saved_keys_are_listed() {
    let index = index_after(&None, "b").unwrap();
    assert_eq!(index, "b");
    let index = index_after(&Some(index), "a").unwrap();
    assert_eq!(index, "a\nb");
    assert_eq!(index_after(&Some(index.clone()), "a"), None);
    assert_eq!(memory_keys(&Some(index)), vec!["a", "b"]);
    assert_eq!(memory_keys(&Some(" \nx\n".to_string())), vec!["x"]);
}

// --- reports ----------------------------------------------------------------

fn size_by_floats(bytes: u64) -> String {
    let units = ["B", "KB", "MB", "GB"];
    let mut size = bytes as f64;
    let mut unit = 0;
    while size >= 1024.0 && unit < units.len() - 1 {
        size /= 1024.0;
        unit += 1;
    }
    if unit == 0 {
        format!("{bytes} B")
    } else {
        format!("{size:.1} {}", units[unit])
    }
}

#[test]
fn sizes_read_as_they_would_in_floating_point() {
    let mut samples: Vec<u64> = vec![
        0,
        1,
        1023,
        1024,
        1075,
        1076,
        1536,
        1587,
        1588,
        1048575,
        1048576,
        1073741823,
        1073741824,
        9007199254740993,
        u64::MAX,
        u64::MAX - 1024,
    ];
    let mut x: u64 = 88172645463325252;
    for _ in 0..20_000 {
        x ^= x << 13;
        x ^= x >> 7;
        x ^= x << 17;
        samples.push(x);
        samples.push(x >> 20);
        samples.push(x >> 34);
        samples.push(x >> 45);
        // Around ties.
        samples.push((x >> 44) * 512 + 256);
    }
    for n in samples {
        assert_eq!(report::human_size(n), size_by_floats(n), "{n}");
    }
}

#[test]
fn reports_lead_with_the_verdict() {
    let setting = ConfigEntry {
        key: "a.b".into(),
        value: "1".into(),
        editable: true,
        live: false,
    };
    assert_eq!(report::format_setting(&setting), "a.b = 1   [needs restart]");
    let quiet = TerminalOutput { output: " ".into(), timed_out: false, truncated: true };
    assert_eq!(report::format_terminal(&quiet), "[earlier output trimmed]\n[no output]");
    let exec = ExecResult {
        exit_code: 2,
        stdout: "o".into(),
        stderr: "e".into(),
        timed_out: false,
        truncated: false,
    };
    let said = report::format_exec(&exec);
    assert!(said.contains('2') && said.contains('o') && said.contains('e'), "{said}");
}

// --- turns ------------------------------------------------------------------

fn call(id: &str, name: &str) -> ToolCall {
    ToolCall { id: id.into(), name: name.into(), arguments_json: "{}".into() }
}

fn said(words: &str, calls: Vec<ToolCall>) -> Reply {
    let mut reply = Reply::new();
    assert!(!reply.absorb(StreamChunk::Delta(words.into())));
    if !calls.is_empty() {
        reply.absorb(StreamChunk::ToolCalls(calls));
    }
    assert!(reply.absorb(StreamChunk::Finished(FinishInfo {
        model: "m".into(),
        usage: Some(TokenUsage { prompt_tokens: 3, completion_tokens: 2 }),
    })));
    reply
}

fn started() -> Turn {
    let events = vec![SessionEvent::UserMessage(UserMsg {
        text: "hi".into(),
        attachments: Vec::new(),
    })];
    let messages = turn::rehydrate("prompt", &events);
    assert_eq!(messages.len(), 2);
    let mut t = Turn::new("s", &None, &None, &None, "m/usual", &Some("2".to_string()), messages);
    assert_eq!(t.step(Event::Begin), Action::Complete);
    t
}

#[test]
fn a_turn_ends_when_the_model_is_done() {
    let mut t = started();
    assert_eq!(t.step(Event::Replied(said("done", Vec::new()))), Action::Poll);
    assert_eq!(t.step(Event::Inbox(Vec::new())), Action::Finish);
    assert_eq!(t.stopped_by, Stop::Finished);
    assert_eq!(t.prompt_tokens, 3);
    assert_eq!(turn::stop_label(Stop::Cancelled), "cancelled");
}

#[test]
fn calls_are_made_one_by_one_and_rounds_run_out() {
    let mut t = started();
    let reply = said("", vec![call("1", "recall"), call("2", "recall")]);
    assert_eq!(t.step(Event::Replied(reply)), Action::Call(call("1", "recall")));
    assert_eq!(t.step(Event::Answered(Ok("a".into()))), Action::Call(call("2", "recall")));
    assert_eq!(t.step(Event::Answered(Ok("b".into()))), Action::Poll);
    assert_eq!(t.tools_used, vec!["recall"]);
    assert_eq!(t.step(Event::Inbox(Vec::new())), Action::Complete);
    let again = said("", vec![call("3", "recall")]);
    t.step(Event::Replied(again));
    t.step(Event::Answered(Ok("c".into())));
    assert!(matches!(t.step(Event::Inbox(Vec::new())), Action::NoteAndFinish(_)));
    assert_eq!(t.stopped_by, Stop::MaxIterations);
}

#[test]
fn the_log_rebuilds_the_conversation() {
    let mut log = vec![SessionEvent::UserMessage(UserMsg {
        text: "hi".into(),
        attachments: Vec::new(),
    })];
    let messages = turn::rehydrate("prompt", &log);
    let mut t = Turn::new("s", &None, &None, &None, "m", &Some("2".to_string()), messages);
    let (written, action) = t.advance(Event::Begin);
    assert_eq!((written.len(), action), (0, Action::Complete));

    let (written, _) = t.advance(Event::Replied(said("let me see", vec![call("1", "recall")])));
    assert_eq!(written.len(), 2);
    assert!(matches!(&written[0], SessionEvent::AssistantMessage(m) if m.content == "let me see"));
    assert_eq!(written[1], SessionEvent::ToolInvocation(call("1", "recall")));
    log.extend(written);
    assert_eq!(shown(&t.messages), shown(&turn::rehydrate("prompt", &log)));

    let (written, action) = t.advance(Event::Answered(Err("no such note".into())));
    assert_eq!(action, Action::Poll);
    assert_eq!(
        written,
        vec![SessionEvent::ToolResult(ToolOutcome {
            call_id: "1".into(),
            name: "recall".into(),
            ok: false,
            content: "no such note".into(),
        })]
    );
    log.extend(written);
    assert_eq!(shown(&t.messages), shown(&turn::rehydrate("prompt", &log)));

    log.push(SessionEvent::Nudge("hurry".into()));
    let (written, _) = t.advance(Event::Inbox(vec![InboxItem::Nudge("hurry".into())]));
    assert_eq!(written, Vec::new());
    assert_eq!(shown(&t.messages), shown(&turn::rehydrate("prompt", &log)));

    t.advance(Event::Replied(said("x", vec![call("2", "recall")])));
    t.advance(Event::Answered(Ok("y".into())));
    let (written, _) = t.advance(Event::Inbox(Vec::new()));
    assert_eq!(written, vec![SessionEvent::SystemNote("stopped after 2 iterations".into())]);
}

fn shown(messages: &[Json]) -> Vec<String> {
    messages.iter().map(|m| m.to_text()).collect()
}

#[test]
fn a_nudge_earns_another_round_and_a_cancel_ends_it() {
    let mut t = started();
    t.step(Event::Replied(said("x", Vec::new())));
    let before = t.messages.len();
    assert_eq!(
        t.step(Event::Inbox(vec![InboxItem::Nudge("also".into())])),
        Action::Complete
    );
    assert_eq!(t.messages.len(), before + 1);
    t.step(Event::Replied(said("y", Vec::new())));
    assert_eq!(
        t.step(Event::Inbox(vec![InboxItem::Nudge("n".into()), InboxItem::Cancel])),
        Action::Finish
    );
    assert_eq!(t.stopped_by, Stop::Cancelled);
}

#[test]
fn a_failed_completion_ends_the_turn() {
    let mut t = started();
    assert_eq!(t.step(Event::Failed("why".into())), Action::Fail("why".into()));
    assert_eq!(t.stopped_by, Stop::LlmError);
}

#[test]
fn attached_skills_join_the_prompt() {
    let skill = |name: &str, enabled: bool| SkillInfo {
        id: name.into(),
        name: name.into(),
        description: String::new(),
        instructions: format!("do {name}"),
        enabled,
    };
    let plain = turn::system_prompt(&Some("base".to_string()), &vec![skill("a", false)]);
    assert_eq!(plain, "base");
    let both = turn::system_prompt(&Some("base".to_string()), &vec![skill("a", true)]);
    assert!(both.starts_with("base\n\n# Active skills\n"), "{both}");
    assert!(both.contains("do a"));
    assert_eq!(turn::health(), "ok");
}

#[test]
fn a_request_names_the_model_and_the_tools() {
    let t = started();
    let text = t.request(tools::definitions("agent", nothing(), &modes(), &Vec::new()));
    let request = json::parse(&text).unwrap();
    assert_eq!(t.model, "m/usual");
    assert_eq!(request.get_str("model").unwrap(), t.model);
    assert_eq!(request.get_array("messages").unwrap().len(), 2);
    assert!(request.get_array("tools").unwrap().len() >= 2);
}

#[test]
fn failed_completions_are_put_into_words() {
    let said = |e: LlmError| turn::describe_llm_error(&e);
    assert_eq!(said(LlmError::Auth("d".into())), "authentication failed: d");
    assert_eq!(said(LlmError::RateLimited("d".into())), "rate limited: d");
    assert_eq!(said(LlmError::Transport("d".into())), "transport error: d");
    assert_eq!(said(LlmError::ModelError("d".into())), "model error: d");
    assert_eq!(said(LlmError::Budget("d".into())), "spend limit reached: d");
    assert_eq!(said(LlmError::BadRequest("d".into())), "bad request: d");
}
