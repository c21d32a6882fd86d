use genesis::config::file::File;
use genesis::config::{Catalogue, Config, ModelSpec};
use genesis::harness::{
    check_submission, end_tool_call, install_component, no_agent, no_tool, session_mode,
    truncate, turn_outcome, Building, Registry, Suppressed, TurnError,
};
use genesis::gateway::gateway_slot;
use genesis::host;
use genesis::host::{SessionCall, Streams};
use genesis::loader::{LoadedComponent, Loader};
use genesis::runtime::{memory_cap, Budget, Caps};
use genesis::skills;
use genesis::slot::Slot;
use genesis::table::Table;
use genesis::time::Span;
use genesis::types::{Attachment, InboxItem, LlmError, ModTarget, SessionMeta, ToolManifest};

fn offer() -> Catalogue {
    Catalogue {
        model: "openai/gpt-4o".to_string(),
        models: vec![ModelSpec {
            id: "openai/gpt-4o".to_string(),
            label: "GPT-4o".to_string(),
        }],
    }
}

fn config() -> Config {
    let env: Table<String> = Table::new();
    Config::assemble(
        "/work",
        "/work/genesis.toml",
        File::default(),
        &env,
        &offer(),
        false,
        None,
        Ok(String::new()),
    )
    .unwrap()
}

#[test]
fn only_traps_count_as_faults_of_the_agent() {
    let reported = TurnError::Reported("no key".into());
    assert_eq!(reported.message(), "no key");
    assert!(!reported.is_trap());
    assert_eq!(reported.shown(), "no key");
    let trapped = TurnError::Trapped("panic".into());
    assert!(trapped.is_trap());
    assert_eq!(trapped.message(), "panic");
    assert_eq!(trapped.shown(), "the agent trapped: panic");
    assert_eq!(turn_outcome::<u8>(Ok(Ok(1))), Ok(1));
    assert_eq!(
        turn_outcome::<u8>(Ok(Err("m".into()))),
        Err(TurnError::Reported("m".into()))
    );
    assert_eq!(
        turn_outcome::<u8>(Err("t".into())),
        Err(TurnError::Trapped("t".into()))
    );
    assert_eq!(no_agent().message(), "no agent component is loaded");
}

fn attachment(name: &str, len: usize) -> Attachment {
    Attachment { name: name.into(), mime: "m".into(), data_base64: "x".repeat(len) }
}

#[test]
fn messages_are_checked_before_they_start_a_turn() {
    let mut cfg = config();
    cfg.max_attachments = 2;
    cfg.max_attachment_bytes = 6;
    assert_eq!(
        check_submission(&cfg, false, "s", &Vec::new()).unwrap_err(),
        "no such session: s"
    );
    let three = vec![attachment("a", 0), attachment("b", 0), attachment("c", 0)];
    assert_eq!(
        check_submission(&cfg, true, "s", &three).unwrap_err(),
        "too many attachments: 3 (limit 2)"
    );
    let big = vec![attachment("ok", 8), attachment("big", 12)];
    assert_eq!(
        check_submission(&cfg, true, "s", &big).unwrap_err(),
        "attachment 'big' is 9 bytes, over the 6 byte limit"
    );
    assert!(check_submission(&cfg, true, "s", &vec![attachment("ok", 11)]).is_ok());
}

#[test]
fn an_attachment_may_be_just_as_large_as_the_limit() {
    let mut cfg = config();
    cfg.max_attachment_bytes = 10;
    let file = |data: &str| {
        vec![Attachment { name: "f".into(), mime: "m".into(), data_base64: data.into() }]
    };
    // Ten bytes end with two signs of padding, eleven with one, twelve with none.
    assert!(check_submission(&cfg, true, "s", &file("MDEyMzQ1Njc4OQ==")).is_ok());
    assert_eq!(
        check_submission(&cfg, true, "s", &file("MDEyMzQ1Njc4OWE=")).unwrap_err(),
        "attachment 'f' is 11 bytes, over the 10 byte limit"
    );
    assert_eq!(
        check_submission(&cfg, true, "s", &file("MDEyMzQ1Njc4OWFi")).unwrap_err(),
        "attachment 'f' is 12 bytes, over the 10 byte limit"
    );
}

#[test]
fn a_call_asks_about_its_own_session_only() {
    let cfg = config();
    let calls = [
        SessionCall::Get,
        SessionCall::Events,
        SessionCall::Append,
        SessionCall::EmitOutput,
        SessionCall::PollInbox,
        SessionCall::Rename,
        SessionCall::Archive,
        SessionCall::Submit,
        SessionCall::SetMode("agent".into()),
        SessionCall::SetModel(String::new()),
        SessionCall::ListSkills,
        SessionCall::SetSkill,
        SessionCall::AvailableTools,
    ];
    for call in &calls {
        assert!(host::check_session_call(&cfg, Some("s1"), "s2", call).is_err());
        assert_eq!(host::check_session_call(&cfg, Some("s1"), "s1", call), Ok(()));
        assert_eq!(host::check_session_call(&cfg, None, "s2", call), Ok(()));
    }
    assert_eq!(
        host::check_session_call(&cfg, None, "s", &SessionCall::SetMode("none".into())),
        Err("unknown mode: none".to_string())
    );
    assert_eq!(
        host::check_session_call(&cfg, None, "s", &SessionCall::SetModel("none".into())),
        Err("unknown model: none".to_string())
    );
}

#[test]
fn long_output_is_cut_between_characters() {
    let mut cfg = config();
    cfg.max_tool_output_bytes = 4;
    assert_eq!(truncate(&cfg, "abcd".into()), "abcd");
    assert_eq!(
        truncate(&cfg, "abcäe".into()),
        "abc\n\n[truncated: 3 of 6 bytes shown]"
    );
}

#[test]
fn a_broken_tool_interrupts_a_sentence_only() {
    let cfg = config();
    let ok = end_tool_call(&cfg, "t", Ok(Ok("out".into())));
    assert_eq!(ok.result, Ok("out".to_string()));
    assert!(ok.trap.is_none());
    let err = end_tool_call(&cfg, "t", Ok(Err("bad".into())));
    assert_eq!(err.result, Err("bad".to_string()));
    assert!(err.trap.is_none());
    let trap = end_tool_call(&cfg, "t", Err("oom".into()));
    assert_eq!(trap.result, Err("tool 't' crashed: oom".to_string()));
    assert_eq!(trap.trap.as_deref(), Some("oom"));
    assert_eq!(no_tool("t"), "no tool named 't' is loaded");
}

fn manifest(name: &str) -> ToolManifest {
    ToolManifest {
        name: name.into(),
        description: String::new(),
        args_schema_json: "{}".into(),
        capabilities: Vec::new(),
    }
}

#[test]
fn the_registry_offers_loaded_tools_in_order() {
    let mut reg = Registry::new();
    reg.set_tool_manifest("b", manifest("zebra"));
    reg.set_tool_manifest("a", manifest("yak"));
    reg.set_tool_manifest("c", manifest("ant"));
    let loaded = vec![Slot::tool("a"), Slot::tool("b"), Slot::Agent];
    let names: Vec<String> = reg.tool_registry(&loaded).into_iter().map(|m| m.name).collect();
    assert_eq!(names, vec!["yak", "zebra"]);
    reg.forget_tool("a");
    assert_eq!(reg.tool_registry(&loaded).len(), 1);
}

#[test]
fn an_installed_tool_is_offered() {
    let mut l: Loader<&str> = Loader::new();
    let mut reg = Registry::new();
    let part = |slot: Slot| LoadedComponent { slot, revision: 1, component: "c" };
    let ok = Some(Ok(manifest("yak")));
    assert!(install_component(&mut l, &mut reg, part(Slot::tool("a")), ok).is_none());
    assert_eq!(reg.tool_registry(&l.tools())[0].name, "yak");
    // Loaded but unusable: it says so, and what there was stays.
    let bad = Some(Err("trapped".to_string()));
    let fault = install_component(&mut l, &mut reg, part(Slot::tool("b")), bad);
    assert_eq!(fault.as_deref(), Some("trapped"));
    assert!(l.get(&Slot::tool("b")).is_some());
    assert_eq!(reg.tool_registry(&l.tools()).len(), 1);
    // So does one that was never asked.
    let fault = install_component(&mut l, &mut reg, part(Slot::tool("b")), None);
    assert_eq!(fault.as_deref(), Some("it was not asked to describe itself"));
    assert_eq!(reg.tool_registry(&l.tools()).len(), 1);
    // Only tools are registered.
    assert!(install_component(&mut l, &mut reg, part(Slot::Agent), None).is_none());
    assert_eq!(l.active().len(), 3);
    assert_eq!(reg.tool_registry(&l.tools()).len(), 1);
}

#[test]
fn one_build_of_a_slot_at_a_time() {
    let mut b = Building::new();
    assert!(b.begin_build(&Slot::Agent));
    assert!(!b.begin_build(&Slot::Agent));
    assert!(b.begin_build(&Slot::tool("t")));
    b.end_build(&Slot::Agent);
    assert!(b.begin_build(&Slot::Agent));
}

#[test]
fn the_watcher_ignores_what_the_harness_wrote() {
    let mut s = Suppressed::new();
    let slot = Slot::Agent;
    assert!(!s.watch_suppressed(&slot, Span::from_secs(0)));
    s.suppress_watch(&slot, Span::from_secs(5), Span::from_secs(10));
    assert!(s.watch_suppressed(&slot, Span::from_secs(14)));
    assert!(!s.watch_suppressed(&Slot::tool("t"), Span::from_secs(14)));
    assert!(!s.watch_suppressed(&slot, Span::from_secs(15)));
    // What has run out is forgotten.
    assert!(!s.watch_suppressed(&slot, Span::from_secs(11)));
}

#[test]
fn a_swap_replaces_one_component() {
    let mut l: Loader<&str> = Loader::new();
    let part = |slot: Slot, revision: u64| LoadedComponent { slot, revision, component: "c" };
    assert!(l.get(&Slot::Agent).is_none());
    assert!(l.install(part(Slot::tool("b"), 1)).is_none());
    l.install(part(Slot::Agent, 1));
    l.install(part(Slot::tool("a"), 4));
    assert_eq!(l.install(part(Slot::Agent, 2)).unwrap().revision, 1);
    assert_eq!(l.get(&Slot::Agent).unwrap().revision, 2);
    assert_eq!(
        l.active(),
        vec![(Slot::Agent, 2), (Slot::tool("a"), 4), (Slot::tool("b"), 1)]
    );
    assert_eq!(l.tools(), vec![Slot::tool("a"), Slot::tool("b")]);
    assert!(l.remove(&Slot::Agent).is_some());
    assert!(l.get(&Slot::Agent).is_none());
}

#[test]
fn a_call_reaches_only_its_session() {
    assert!(host::scope_ok(None, "any").is_ok());
    assert!(host::scope_ok(Some("a"), "a").is_ok());
    assert_eq!(
        host::scope_ok(Some("a"), "b").unwrap_err(),
        "session b is out of scope for this call (scoped to a)"
    );
    assert!(host::check_kv_get(Some("a"), "global").is_ok());
    assert!(host::check_kv_get(Some("a"), "b").is_err());
    let big = "x".repeat(1_048_577);
    assert_eq!(
        host::check_kv_put(Some("a"), "a", &big).unwrap_err(),
        "kv value exceeds 1 MiB"
    );
    assert!(host::check_kv_put(Some("a"), "a", &big[1..]).is_ok());
}

#[test]
fn guests_read_some_settings_and_no_secrets() {
    let mut cfg = config();
    cfg.model = "m/x".into();
    assert_eq!(host::config_get(&cfg, "model").as_deref(), Some("m/x"));
    assert_eq!(host::config_get(&cfg, "max_iterations").as_deref(), Some("32"));
    assert_eq!(
        host::config_get(&cfg, "devkit_available"),
        Some(cfg.devkit.enabled.to_string())
    );
    assert_eq!(
        host::config_get(&cfg, "max_tool_output_bytes"),
        Some(cfg.max_tool_output_bytes.to_string())
    );
    assert_eq!(
        host::config_get(&cfg, "sandbox_available"),
        Some(cfg.sandbox_available.to_string())
    );
    assert_eq!(host::config_get(&cfg, "system_prompt"), Some(cfg.system_prompt.clone()));
    assert_eq!(host::config_get(&cfg, "openrouter_api_key"), None);
    assert_eq!(host::list_models(&cfg).len(), cfg.models.len());
    let modes = host::list_modes(&cfg);
    assert!(modes.iter().any(|m| m.id == "plan" && m.read_only));
    assert_eq!(host::log_text("ä".repeat(5000)).chars().count(), 4096);
    assert_eq!(host::log_text("short".into()), "short");
}

#[test]
fn a_model_no_longer_offered_is_blanked() {
    let mut cfg = config();
    cfg.models = vec![ModelSpec { id: "a".into(), label: "A".into() }];
    let mut meta = SessionMeta {
        id: "s".into(),
        title: "t".into(),
        mode: "agent".into(),
        model: "gone".into(),
    };
    host::drop_unavailable_model(&cfg, &mut meta);
    assert_eq!(meta.model, "");
    meta.model = "a".into();
    host::drop_unavailable_model(&cfg, &mut meta);
    assert_eq!(meta.model, "a");
    assert!(host::check_model(&cfg, "a").is_ok());
    assert!(host::check_model(&cfg, "").is_ok());
    assert_eq!(host::check_model(&cfg, "gone").unwrap_err(), "unknown model: gone");
    assert!(host::check_mode(&cfg, "plan").is_ok());
    assert_eq!(host::check_mode(&cfg, "x").unwrap_err(), "unknown mode: x");
    assert_eq!(session_mode(&cfg, &None), cfg.default_mode);
    assert_eq!(session_mode(&cfg, &Some(meta)), "agent");
}

#[test]
fn only_skills_that_exist_are_attached() {
    let known = vec![skills::parse("a", "x")];
    assert_eq!(host::set_skill_enabled(&known, None, "a", true).unwrap(), "a");
    assert_eq!(
        host::set_skill_enabled(&known, None, "b", true).unwrap_err(),
        "unknown skill: b"
    );
}

#[test]
fn a_cancel_arms_the_budget() {
    let mut b = Budget::new("turn", Span::from_secs(60), Span::from_secs(60));
    host::arm(&mut b, &vec![InboxItem::Nudge("x".into())]);
    assert!(!b.cancelled);
    host::arm(&mut b, &vec![InboxItem::Nudge("x".into()), InboxItem::Cancel]);
    assert!(b.cancelled);
    host::arm(&mut b, &Vec::new());
    assert!(b.cancelled);
}

#[test]
fn stream_ids_are_handed_out_once() {
    let mut s: Streams<&str> = Streams::new();
    assert_eq!(s.open("a"), 1);
    assert_eq!(s.open("b"), 2);
    assert_eq!(s.take(1).unwrap(), "a");
    assert_eq!(
        s.take(1).unwrap_err(),
        LlmError::BadRequest("unknown stream id 1".into())
    );
    s.put_back(1, "a2");
    assert_eq!(s.take(1).unwrap(), "a2");
    s.close(2);
    assert!(s.take(2).is_err());
    assert_eq!(s.open("c"), 3);
}

#[test]
fn only_the_agent_waits_for_its_turn() {
    let mut pending: Vec<Slot> = Vec::new();
    host::note_pending_swap(&mut pending, &ModTarget::Tool("t".into()));
    assert!(pending.is_empty());
    host::note_pending_swap(&mut pending, &ModTarget::AgentSelf);
    host::note_pending_swap(&mut pending, &ModTarget::AgentSelf);
    assert_eq!(pending, vec![Slot::Agent]);
    assert_eq!(host::no_sandbox().exit_code, -1);
    assert!(host::no_sandbox().stderr.contains("sandbox is not configured"));
    assert_eq!(host::no_mcp_server("x"), "no mcp server provides x");
    let cfg = config();
    assert_eq!(memory_cap(&cfg, Caps::Tool), cfg.tool_memory_bytes);
    assert_eq!(memory_cap(&cfg, Caps::Agent), cfg.agent_memory_bytes);
    assert_eq!(memory_cap(&cfg, Caps::Gateway), cfg.gateway_memory_bytes);
}

#[test]
fn the_configured_gateway_serves_the_browser() {
    assert_eq!(gateway_slot(&config()), Slot::gateway("web"));
}
