use genesis::config::file::{File, Mode, Model};
use genesis::config::{builtin_models, CacheSettings, CacheStrategy, Catalogue, Config, ModelSpec, Secret, choose_config, choose_root, local_overlay_path, parse_models_env, resolve_api_key};
use genesis::document;
use genesis::document::merge_toml;
use genesis::slot::Slot;
use genesis::table::Table;

fn offer() -> Catalogue {
    Catalogue {
        model: "openai/gpt-4o".to_string(),
        models: vec![ModelSpec {
            id: "m/first".to_string(),
            label: "First".to_string(),
        }],
    }
}

fn assembled(file: File) -> Result<Config, String> {
    let env: Table<String> = Table::new();
    Config::assemble("/proj", "/proj/genesis.toml", file, &env, &offer(), false, None, Ok(String::new()))
}

fn with_env(pairs: &[(&str, &str)], file: File) -> Result<Config, String> {
    let mut env: Table<String> = Table::new();
    for (k, v) in pairs {
        env.insert(k.to_string(), v.to_string());
    }
    Config::assemble("/proj", "/proj/genesis.toml", file, &env, &offer(), false, None, Ok(String::new()))
}

#[test]
fn runs_with_no_configuration_at_all() {
    let cfg = assembled(File::default()).unwrap();
    assert!(cfg.bind_addr.ends_with(":7777"));
    assert_eq!(cfg.build.target, "wasm32-wasip2");
    assert_eq!(cfg.modes.len(), 2);
    assert!(cfg.mode("plan").unwrap().read_only);
    assert!(!cfg.mode("agent").unwrap().read_only);
}

#[test]
fn a_partial_file_only_overrides_what_it_names() {
    let mut file = File::default();
    file.server.bind = "0.0.0.0:9000".to_string();
    let cfg = assembled(file).unwrap();
    assert_eq!(cfg.bind_addr, "0.0.0.0:9000");
    // Untouched sections keep their defaults.
    assert_eq!(cfg.max_iterations, 32);
    assert_eq!(cfg.watchdog.failure_threshold, 3);
}

#[test]
fn modes_are_configurable_including_which_are_read_only() {
    let mut file = File::default();
    file.agent.default_mode = "review".to_string();
    file.modes = vec![
        Mode {
            id: "review".to_string(),
            label: "Review".to_string(),
            description: "Looks, never touches.".to_string(),
            read_only: true,
        },
        Mode {
            id: "build".to_string(),
            label: "Build".to_string(),
            description: String::new(),
            read_only: false,
        },
    ];
    let cfg = assembled(file).unwrap();

    assert_eq!(cfg.modes.len(), 2);
    assert!(cfg.mode("review").unwrap().read_only);
    assert!(!cfg.mode("build").unwrap().read_only);
    // A mode without a label falls back to its id rather than showing blank.
    assert_eq!(cfg.mode("build").unwrap().label, "Build");
}

#[test]
fn a_mode_without_a_label_shows_its_id() {
    let mut file = File::default();
    file.agent.default_mode = "build".to_string();
    file.modes = vec![Mode {
        id: "build".to_string(),
        label: String::new(),
        description: String::new(),
        read_only: false,
    }];
    let cfg = assembled(file).unwrap();
    assert_eq!(cfg.mode("build").unwrap().label, "build");
    assert!(cfg.mode("plan").is_none());
}

#[test]
fn a_default_mode_that_does_not_exist_is_rejected() {
    let mut file = File::default();
    file.agent.default_mode = "nonsense".to_string();
    let err = assembled(file).err().unwrap();
    assert!(err.contains("nonsense"), "{err}");
}

#[test]
fn paths_are_resolved_against_the_root_but_absolute_ones_are_kept() {
    let mut file = File::default();
    file.paths.data = "var/state".to_string();
    file.paths.artifacts = "/srv/genesis/artifacts".to_string();
    file.paths.agent = "components/brain".to_string();
    let cfg = assembled(file).unwrap();

    assert_eq!(cfg.paths.data, "/proj/var/state");
    assert_eq!(cfg.paths.artifacts, "/srv/genesis/artifacts");
    assert_eq!(cfg.slot_source_dir(&Slot::Agent), "/proj/components/brain");
    // The crate name follows the directory, so renaming it needs no code change.
    assert_eq!(cfg.slot_crate_name(&Slot::Agent), "brain");
    assert_eq!(cfg.slot_wasm_filename(&Slot::Agent), "brain.wasm");
    assert_eq!(cfg.db_path(), "/proj/var/state/genesis.redb");
}

#[test]
fn gateway_and_tool_naming_conventions_are_configurable() {
    let mut file = File::default();
    file.paths.gateways = "surfaces".to_string();
    file.paths.gateway_prefix = "ui-".to_string();
    file.paths.tools = "plugins".to_string();
    file.paths.tool_prefix = "plugin-".to_string();
    let cfg = assembled(file).unwrap();

    assert_eq!(cfg.slot_source_dir(&Slot::gateway("web")), "/proj/surfaces/ui-web");
    assert_eq!(cfg.slot_wasm_filename(&Slot::gateway("web")), "ui_web.wasm");
    assert_eq!(cfg.slot_source_dir(&Slot::tool("weather")), "/proj/plugins/plugin-weather");
}

#[test]
fn build_settings_flow_through() {
    let mut file = File::default();
    file.build.profile = "dev".to_string();
    file.build.target = "wasm32-wasip1".to_string();
    file.build.target_dir = "build-out".to_string();
    file.build.locked = false;
    file.build.extra_args = vec!["--features".to_string(), "wide".to_string()];
    let cfg = assembled(file).unwrap();

    assert_eq!(cfg.build.profile, "dev");
    assert_eq!(cfg.build.target, "wasm32-wasip1");
    assert_eq!(cfg.build.target_dir, "/proj/build-out");
    assert!(!cfg.build.locked);
    assert_eq!(cfg.build.extra_args, vec!["--features", "wide"]);
}

#[test]
fn the_api_key_can_come_from_the_file() {
    let mut file = File::default();
    file.llm.api_key = "sk-from-file".to_string();
    let cfg = assembled(file).unwrap();
    assert_eq!(cfg.openrouter_api_key.as_ref().unwrap().expose(), "sk-from-file");
}

#[test]
fn an_absent_or_blank_key_stays_none() {
    assert!(assembled(File::default()).unwrap().openrouter_api_key.is_none());
    let mut file = File::default();
    file.llm.api_key = "   ".to_string();
    let cfg = assembled(file).unwrap();
    assert!(
        cfg.openrouter_api_key.is_none(),
        "whitespace is not a key, and would fail confusingly at request time"
    );
}

#[test]
fn the_environment_wins_over_a_configured_key() {
    let from_both = resolve_api_key(Some("sk-env".into()), "sk-file").unwrap();
    assert_eq!(from_both.expose(), "sk-env");

    let file_only = resolve_api_key(None, "sk-file").unwrap();
    assert_eq!(file_only.expose(), "sk-file");

    // Blank on either side is the same as not set at all.
    assert!(resolve_api_key(None, "").is_none());
    assert!(resolve_api_key(None, "   ").is_none());
    assert!(resolve_api_key(Some("  ".into()), "").is_none());

    // Surrounding whitespace from a copy-paste is trimmed, not sent.
    assert_eq!(
        resolve_api_key(None, "  sk-padded  ").unwrap().expose(),
        "sk-padded"
    );
}

#[test]
fn a_secret_does_not_print_itself() {
    let secret = Secret::new("sk-live-do-not-log-me");
    let shown = secret.shown();
    assert!(!shown.contains("sk-live"), "{shown}");
    assert_eq!(shown, "Secret(***)");

    // The same must hold when it is nested in the struct that gets logged.
    let mut file = File::default();
    file.llm.api_key = "sk-live-do-not-log-me".to_string();
    let cfg = assembled(file).unwrap();
    assert!(!cfg.openrouter_api_key.unwrap().shown().contains("sk-live"));
    assert_eq!(Secret::new("").shown(), "Secret(empty)");
}

#[test]
fn models_take_their_id_as_a_label_when_none_is_given() {
    let mut file = File::default();
    file.models = vec![Model { id: "local/tiny".to_string(), label: String::new() }];
    let cfg = assembled(file).unwrap();
    assert_eq!(cfg.models.len(), 1);
    assert_eq!(cfg.models[0].label, "local/tiny");
}

#[test]
fn local_overlay_sits_beside_the_config_file() {
    assert_eq!(
        local_overlay_path("/srv/app/genesis.toml"),
        "/srv/app/genesis.local.toml"
    );
    assert_eq!(
        local_overlay_path("/srv/app/staging.toml"),
        "/srv/app/staging.local.toml"
    );
}

#[test]
fn overlay_sets_one_key_without_restating_its_section() {
    let mut base = document::parse(
        "[llm]\nmodel = \"a/b\"\nmax_retries = 3\n\n[tools.web-search]\ntimeout = 30\n",
    )
    .unwrap();
    let overlay = document::parse("[tools.web-search]\napi_key = \"secret\"\n").unwrap();

    merge_toml(&mut base, overlay);

    // The overlay added its key and left the neighbours alone.
    let tools = base.get("tools").unwrap().get("web-search").unwrap();
    assert_eq!(tools.get("api_key").unwrap().as_str(), Some("secret"));
    assert_eq!(tools.get("timeout").unwrap().as_integer(), Some(30));
    assert_eq!(
        base.get("llm").unwrap().get("model").unwrap().as_str(),
        Some("a/b")
    );
}

#[test]
fn overlay_replaces_scalars_and_arrays_rather_than_merging_them() {
    let mut base =
        document::parse("[build]\nlocked = true\nallowed_crates = [\"a\", \"b\"]\n").unwrap();
    let overlay =
        document::parse("[build]\nlocked = false\nallowed_crates = [\"c\"]\n").unwrap();

    merge_toml(&mut base, overlay);

    let build = base.get("build").unwrap();
    assert_eq!(build.get("locked").unwrap().as_bool(), Some(false));
    // Replaced, not appended: otherwise a list could never be shortened.
    let crates = build.get("allowed_crates").unwrap().as_array().unwrap();
    assert_eq!(crates.len(), 1);
    assert_eq!(crates[0].as_str(), Some("c"));
}

#[test]
fn an_empty_overlay_changes_nothing() {
    let mut base = document::parse("a = 1\n[b]\nc = \"d\"\n").unwrap();
    let before = base.clone();
    merge_toml(&mut base, document::empty_table());
    assert_eq!(base, before);
    assert!(document::parse("a = ").is_err());
}

#[test]
fn the_environment_overrides_the_file() {
    let mut file = File::default();
    file.llm.model = Some("from/file".to_string());
    let cfg = with_env(&[("GENESIS_MODEL", "from/env")], file).unwrap();
    assert_eq!(cfg.model, "from/env");
    let mut named = File::default();
    named.llm.model = Some("from/file".to_string());
    assert_eq!(assembled(named).unwrap().model, "from/file");
    let usual = assembled(File::default()).unwrap();
    assert_eq!(usual.model, "openai/gpt-4o");
    assert_eq!(usual.models.len(), 4);
    let listed = with_env(&[("GENESIS_MODELS", "a/b=First,c/d")], File::default()).unwrap();
    assert_eq!(listed.models[0].label, "First");
    assert_eq!(listed.models[1].label, "c/d");
}

#[test]
fn a_tool_sees_only_its_own_settings() {
    let mut file = File::default();
    let block = document::parse("[search]\napi_key = \"k\"\n[other]\nx = 1\n").unwrap();
    let table = block.as_table().unwrap();
    for (name, value) in table {
        file.tools.insert(name.clone(), value.clone());
    }
    let cfg = assembled(file).unwrap();
    assert_eq!(cfg.tool_config_json("search"), "{\"api_key\":\"k\"}");
    assert_eq!(cfg.tool_config_json("missing"), "{}");
}

#[test]
fn the_root_and_the_file_can_be_chosen() {
    let mut env: Table<String> = Table::new();
    assert_eq!(choose_root(&env, &Some("/found".to_string()), "/cwd"), "/found");
    assert_eq!(choose_root(&env, &None, "/cwd"), "/cwd");
    assert_eq!(choose_config(&env, "/found"), "/found/genesis.toml");
    env.insert("GENESIS_ROOT".to_string(), "/set".to_string());
    env.insert("GENESIS_CONFIG".to_string(), "conf/x.toml".to_string());
    assert_eq!(choose_root(&env, &None, "/cwd"), "/set");
    assert_eq!(choose_config(&env, "/set"), "/set/conf/x.toml");
}

#[test]
fn a_bad_address_is_reported() {
    let env: Table<String> = Table::new();
    let err = Config::assemble(
        "/proj",
        "/proj/genesis.toml",
        File::default(),
        &env,
        &offer(),
        false,
        Some("invalid socket address syntax".to_string()),
        Ok(String::new()),
    )
    .err()
    .unwrap();
    assert!(err.contains("invalid socket address syntax"), "{err}");
}

#[test]
fn explicit_vendors_need_breakpoints() {
    let cache = CacheSettings {
        enabled: true,
        ttl: "5m".to_string(),
        anchor_stride: 4,
        explicit_vendors: vec!["anthropic".to_string()],
    };
    assert_eq!(cache.strategy_for("Anthropic"), CacheStrategy::Breakpoints);
    assert_eq!(cache.strategy_for("openai"), CacheStrategy::Automatic);
}

#[test]
fn models_can_be_listed_in_the_environment() {
    let models = parse_models_env("a/b=First, c/d", &Vec::new());
    assert!(models.iter().any(|m| m.id == "c/d"));
    assert_eq!(models.len(), 2);
}

#[test]
fn the_overlay_stands_beside_the_file() {
    assert_eq!(assembled(File::default()).unwrap().local_overlay(), "/proj/genesis.local.toml");
}

#[test]
fn some_model_is_always_offered() {
    let list = builtin_models(&Vec::new());
    let ids: Vec<&str> = list.iter().map(|m| m.id.as_str()).collect();
    assert_eq!(ids, vec!["openai/gpt-4o", "google/gemini-2.5-pro", "mock/echo"]);
    assert_eq!(list[2].label, "Mock (local test server)");
    // What the build adds comes first; a list that names nothing changes nothing.
    let usual = assembled(File::default()).unwrap();
    assert_eq!(usual.models.len(), 4);
    assert_eq!(usual.models[0].id, "m/first");
    assert_eq!(with_env(&[("GENESIS_MODELS", " , ")], File::default()).unwrap().models.len(), 4);
}

#[test]
fn a_blank_key_leaves_the_other_in_force() {
    assert_eq!(resolve_api_key(Some("  ".into()), "sk-file").unwrap().expose(), "sk-file");
    assert_eq!(resolve_api_key(Some(" sk-env ".into()), "sk-file").unwrap().expose(), "sk-env");
    assert_eq!(resolve_api_key(Some("sk-env".into()), "  ").unwrap().expose(), "sk-env");
}
