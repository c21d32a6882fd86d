use genesis::config::file::File;
use genesis::config::{Catalogue, Config, ModelSpec};
use genesis::pipeline::Outcome;
use genesis::revisions::Origin;
use genesis::slot::Slot;
use genesis::startup::{
    discover_slots, note_rebuild, resume_interrupted_turns, BringUp, Happened, Interrupted, Next,
    Rebuilt,
};
use genesis::table::Table;
use genesis::watcher::{all_source_slots, coalesce, slots_for_path, slots_for_paths, OnDisk};

fn offer() -> Catalogue {
    Catalogue {
        model: "openai/gpt-4o".to_string(),
        models: vec![ModelSpec {
            id: "openai/gpt-4o".to_string(),
            label: "GPT-4o".to_string(),
        }],
    }
}

fn test_cfg() -> Config {
    let env: Table<String> = Table::new();
    let mut cfg = Config::assemble(
        "C:/proj",
        "C:/proj/genesis.toml",
        File::default(),
        &env,
        &offer(),
        true,
        None,
        Ok(String::new()),
    )
    .unwrap();
    cfg.root = "C:/proj".to_string();
    cfg.paths.wit = "C:/proj/wit".to_string();
    cfg.paths.agent = "C:/proj/agents/agent-core".to_string();
    cfg.paths.gateways = "C:/proj/gateways".to_string();
    cfg.paths.tools = "C:/proj/tools".to_string();
    cfg
}

fn disk() -> OnDisk {
    OnDisk {
        agent: true,
        gateways: vec!["gateway-web".to_string(), "notes".to_string()],
        tools: vec!["weather".to_string()],
    }
}

#[test]
fn maps_source_paths_to_their_slots() {
    let cfg = test_cfg();
    assert_eq!(
        slots_for_path(&cfg, "C:/proj/agents/agent-core/src/lib.rs", &disk()),
        vec![Slot::Agent]
    );
    assert_eq!(
        slots_for_path(&cfg, "C:/proj/gateways/gateway-web/src/ui/app.js", &disk()),
        vec![Slot::gateway("web")]
    );
    assert_eq!(
        slots_for_path(&cfg, "C:/proj/tools/weather/src/lib.rs", &disk()),
        vec![Slot::tool("weather")]
    );
}

#[test]
fn ignores_build_output_and_unrelated_paths() {
    let cfg = test_cfg();
    for path in [
        "C:/proj/target-wasm/wasm32-wasip2/release/agent_core.wasm",
        "C:/proj/agents/agent-core/target/debug/x.rlib",
        "C:/proj/data/genesis.redb",
        "C:/elsewhere/agents/agent-core/src/lib.rs",
    ] {
        assert!(
            slots_for_path(&cfg, path, &disk()).is_empty(),
            "should have ignored {path}"
        );
    }
}

#[test]
fn a_change_of_the_contract_rebuilds_everything() {
    let cfg = test_cfg();
    assert_eq!(
        slots_for_path(&cfg, "C:/proj/wit/genesis.wit", &disk()),
        vec![Slot::Agent, Slot::gateway("web"), Slot::tool("weather")]
    );
    assert_eq!(
        all_source_slots(&cfg, &disk()),
        slots_for_path(&cfg, "C:/proj/wit/genesis.wit", &disk())
    );
    assert!(slots_for_path(&cfg, "C:/proj/wit/deps.lock", &disk()).is_empty());
    assert!(slots_for_path(&cfg, "C:/proj/wit/.git/HEAD", &disk()).is_empty());
    assert!(slots_for_path(&cfg, "C:/proj/tools", &disk()).is_empty());
}

#[test]
fn gateways_come_up_first() {
    let cfg = test_cfg();
    assert_eq!(
        discover_slots(&cfg, &disk()),
        vec![Slot::gateway("web"), Slot::Agent, Slot::tool("weather")]
    );
    let empty = OnDisk { agent: false, gateways: Vec::new(), tools: Vec::new() };
    assert_eq!(discover_slots(&cfg, &empty), vec![Slot::Agent]);
}

#[test]
fn a_stored_artifact_is_served_at_once() {
    let mut up = BringUp::new();
    assert_eq!(up.step(Happened::Looked(Some(7), true)), Next::Load(7));
    assert_eq!(
        up.step(Happened::Loaded(true)),
        Next::Serve(7, Origin::HumanEdit, "startup rebuild".to_string())
    );
}

fn outcome(success: bool, detail: &str, stderr: &str) -> Outcome {
    Outcome {
        success,
        slot: "agent".to_string(),
        revision: Some(3),
        stderr: stderr.to_string(),
        duration_ms: 5,
        detail: detail.to_string(),
        pending_swap: false,
    }
}

#[test]
fn a_slot_that_does_not_build_falls_back_and_is_reported() {
    let mut up = BringUp::new();
    let build = Next::Build(Origin::Bootstrap, "startup".to_string());
    assert_eq!(up.step(Happened::Looked(Some(7), true)), Next::Load(7));
    assert_eq!(up.step(Happened::Loaded(false)), build);
    assert_eq!(
        up.step(Happened::Built(Ok(outcome(false, "no", "error[E0001]")))),
        Next::Rollback
    );
    assert_eq!(
        up.step(Happened::RolledBack),
        Next::Fail("no\nerror[E0001]".to_string())
    );

    let mut fresh = BringUp::new();
    assert_eq!(fresh.step(Happened::Looked(None, false)), build);
    assert_eq!(fresh.step(Happened::Built(Ok(outcome(true, "", "")))), Next::Up);

    let mut lost = BringUp::new();
    assert_eq!(lost.step(Happened::Looked(Some(1), false)), build);
    assert_eq!(
        lost.step(Happened::Built(Err("disk".to_string()))),
        Next::Fail("disk".to_string())
    );
}

#[test]
fn rebuilds_are_noted() {
    assert_eq!(note_rebuild(&outcome(true, "", "")), Rebuilt::PickedUp(3));
    assert_eq!(
        note_rebuild(&outcome(true, "unchanged", "")),
        Rebuilt::Unchanged("unchanged".to_string())
    );
    assert_eq!(
        note_rebuild(&outcome(false, "d", "e")),
        Rebuilt::Rejected("d".to_string(), "e".to_string())
    );
}

#[test]
fn only_turns_to_be_carried_on_are_resumed() {
    let items = vec![
        Interrupted { session_id: "a".to_string(), resume: true },
        Interrupted { session_id: "b".to_string(), resume: false },
        Interrupted { session_id: "c".to_string(), resume: true },
    ];
    assert_eq!(resume_interrupted_turns(&items), vec!["a", "c"]);
}

#[test]
fn every_queued_slot_is_built_once() {
    let queued = vec![
        Slot::tool("a"),
        Slot::Agent,
        Slot::tool("a"),
        Slot::gateway("a"),
        Slot::Agent,
    ];
    assert_eq!(coalesce(&queued), vec![Slot::tool("a"), Slot::Agent, Slot::gateway("a")]);
    assert_eq!(coalesce(&Vec::new()), Vec::new());
}

#[test]
fn saving_many_files_builds_each_slot_once() {
    let cfg = test_cfg();
    let changed: Vec<String> = [
        "C:/proj/tools/weather/src/lib.rs",
        "C:/proj/agents/agent-core/src/lib.rs",
        "C:/proj/tools/weather/src/api.rs",
        "C:/proj/tools/weather/target/debug/x",
    ]
    .map(String::from)
    .to_vec();
    assert_eq!(
        slots_for_paths(&cfg, &changed, &disk()),
        vec![Slot::tool("weather"), Slot::Agent]
    );
}

#[test]
fn a_source_tree_rebuilds_its_slot() {
    let cfg = test_cfg();
    for slot in [Slot::Agent, Slot::gateway("web"), Slot::tool("weather")] {
        let path = cfg.slot_source_dir(&slot) + "/src/deep/mod.rs";
        assert_eq!(slots_for_path(&cfg, &path, &disk()), vec![slot]);
    }
}

#[test]
fn the_source_trees_and_the_contract_are_watched() {
    assert_eq!(
        test_cfg().watched_dirs(),
        vec![
            "C:/proj/agents/agent-core",
            "C:/proj/gateways",
            "C:/proj/tools",
            "C:/proj/wit",
        ]
    );
}
