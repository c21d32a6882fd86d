use genesis::slot::{validate_component_name, Slot};

#[test]
fn slot_keys_round_trip() {
    for slot in [
        Slot::Agent,
        Slot::gateway("web"),
        Slot::tool("weather-lookup"),
    ] {
        assert_eq!(Slot::parse(&slot.key()).unwrap(), slot);
    }
}

#[test]
fn rejects_unsafe_names() {
    for bad in ["", "Has-Upper", "has_underscore", "-lead", "trail-", "../x"] {
        assert!(validate_component_name(bad).is_err(), "accepted {bad:?}");
    }
    assert!(validate_component_name("weather-2").is_ok());
}

#[test]
fn an_unknown_key_names_no_slot() {
    for bad in ["", "tool", "tool/", "gateway/", "agents", "widget/x"] {
        let err = Slot::parse(bad).unwrap_err();
        assert_eq!(err, format!("unknown slot key: {bad}"));
    }
    assert_eq!(Slot::parse("agent").unwrap(), Slot::Agent);
    assert_eq!(Slot::parse("tool/a/b").unwrap(), Slot::tool("a/b"));
}

#[test]
fn slots_name_their_files() {
    let agent = Slot::Agent;
    assert_eq!(agent.key(), "agent");
    let web = Slot::gateway("web");
    assert_eq!(web.key(), "gateway/web");
    let tool = Slot::tool("weather-lookup");
    assert_eq!(tool.key(), "tool/weather-lookup");
    assert!(tool.wasm_filename().ends_with(".wasm"));
    assert!(!tool.wasm_filename().contains('-'));
    assert_eq!(tool.clone(), tool);
    assert!(tool.is(&Slot::tool("weather-lookup")));
    assert!(!tool.is(&web));
    assert_ne!(agent.artifact_subdir(), web.artifact_subdir());
    assert_ne!(agent.crate_name(), web.crate_name());
}
