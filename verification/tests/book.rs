use genesis::admin;
use genesis::admin::Override;
use genesis::host;
use genesis::host::Rollback;
use genesis::pipeline::{
    choose_rollback, choose_snapshot, enter_rollback, judge, plan_restore, Answer, BuildAction,
    BuildEvent, BuildRun, Outcome, Probe, RollbackAction, RollbackEvent, RollbackRun, SystemRun,
    Verdict,
};
use genesis::revisions::{
    fingerprint, known_slot_keys, members_to_move, short_hash, stays_in_place, Origin, Revisions,
    Shelf, Status,
};
use genesis::slot::Slot;
use genesis::table::Table;
use genesis::types::{RollbackTarget, ToolManifest};

fn shelf() -> Shelf {
    Shelf {
        agent: true,
        gateways: vec!["web".to_string()],
        tools: vec!["t".to_string()],
    }
}

fn bare() -> Shelf {
    Shelf {
        agent: false,
        gateways: Vec::new(),
        tools: Vec::new(),
    }
}

#[test]
fn what_stands_on_the_shelf_is_listed_in_order() {
    let full = Shelf {
        agent: true,
        gateways: vec!["web".to_string(), "cli".to_string()],
        tools: vec!["zip".to_string(), "add".to_string(), String::new()],
    };
    assert_eq!(
        known_slot_keys(&full),
        vec!["agent", "gateway/cli", "gateway/web", "tool/", "tool/add", "tool/zip"]
    );
    // A key that names no slot is passed over.
    assert_eq!(
        Revisions::new().slots_with_history(&full),
        vec![
            Slot::Agent,
            Slot::gateway("cli"),
            Slot::gateway("web"),
            Slot::tool("add"),
            Slot::tool("zip"),
        ]
    );
    assert_eq!(known_slot_keys(&bare()), Vec::<String>::new());
}

#[test]
fn a_slot_that_left_the_shelf_is_in_no_new_snapshot() {
    let mut revs = two_revisions();
    let id = revs.snapshot(&bare(), "later", 9);
    assert_eq!(revs.snapshot_by_id(id).unwrap().slots.get("tool/t"), None);
    assert_eq!(revs.snapshot_by_id(2).unwrap().slots.get("tool/t"), Some(&2));
}

#[test]
fn a_slot_without_revisions_is_still_shown() {
    let page = admin::render_admin(&Revisions::new(), &shelf(), &Table::new(), 0, "");
    assert!(page.contains("<code>gateway/web</code>"));
    assert!(page.contains("<em>no revisions</em>"));
}

#[test]
fn revisions_increment_and_never_reuse_numbers() {
    let mut revs = Revisions::new();
    let slot = Slot::Agent;

    let r1 = revs.record(&slot, Origin::Bootstrap, "first", "h1", 1);
    let r2 = revs.record(&slot, Origin::AgentMod, "second", "h2", 2);
    assert_eq!((r1.revision, r2.revision), (1, 2));

    revs.activate(&slot, 2, &shelf(), "test", 3);
    let r3 = revs.record(&slot, Origin::Rollback, "third", "h3", 4);
    assert_eq!(r3.revision, 3, "numbers keep climbing across activations");
}

#[test]
fn activation_demotes_the_previous_version_to_known_good() {
    let mut revs = Revisions::new();
    let slot = Slot::Agent;

    revs.record(&slot, Origin::Bootstrap, "r1", "h", 1);
    revs.activate(&slot, 1, &shelf(), "boot", 2);
    revs.record(&slot, Origin::AgentMod, "r2", "h", 3);
    revs.activate(&slot, 2, &shelf(), "self-mod", 4);

    let history = revs.history(&slot);
    assert_eq!(history[0].status, Status::KnownGood);
    assert_eq!(history[1].status, Status::Active);
    assert_eq!(revs.active(&slot).unwrap().revision, 2);
    assert_eq!(revs.last_known_good(&slot).unwrap().revision, 1);
}

#[test]
fn system_snapshots_capture_every_active_slot() {
    let mut revs = Revisions::new();
    let agent = Slot::Agent;
    let gw = Slot::gateway("web");

    revs.record(&agent, Origin::Bootstrap, "", "h", 1);
    revs.activate(&agent, 1, &shelf(), "boot", 2);

    revs.record(&gw, Origin::Bootstrap, "", "h", 3);
    let id = {
        revs.activate(&gw, 1, &shelf(), "boot", 4);
        revs.snapshots().last().unwrap().id
    };

    let snap = revs.snapshot_by_id(id).unwrap();
    assert_eq!(snap.slots.get("agent"), Some(&1));
    assert_eq!(snap.slots.get("gateway/web"), Some(&1));
}

#[test]
fn snapshots_track_the_change_over_time() {
    let mut revs = Revisions::new();
    let slot = Slot::Agent;

    revs.record(&slot, Origin::Bootstrap, "", "h", 1);
    revs.activate(&slot, 1, &shelf(), "boot", 2);
    revs.record(&slot, Origin::AgentMod, "", "h", 3);
    revs.activate(&slot, 2, &shelf(), "self-mod", 4);

    let snaps = revs.snapshots();
    assert_eq!(snaps.len(), 2);
    assert_eq!(snaps[0].slots.get("agent"), Some(&1));
    assert_eq!(snaps[1].slots.get("agent"), Some(&2));
    // An earlier snapshot is exactly what "roll the system back" targets.
    assert_eq!(snaps[0].cause, "boot");
}

#[test]
fn fingerprints_are_the_start_of_the_digest() {
    assert_eq!(fingerprint(&b"abc".to_vec()), "ba7816bf8f01cfea");
    assert_eq!(fingerprint(&Vec::new()), "e3b0c44298fc1c14");
    assert_eq!(short_hash(&vec![0, 1, 2, 3, 253, 254, 255, 16, 99]), "00010203fdfeff10");
}

fn two_revisions() -> Revisions {
    let mut revs = Revisions::new();
    let slot = Slot::tool("t");
    revs.record(&slot, Origin::Bootstrap, "first <b>", "h1", 1);
    revs.activate(&slot, 1, &shelf(), "boot", 2);
    revs.record(&slot, Origin::AgentMod, "second", "h2", 3);
    revs.activate(&slot, 2, &shelf(), "self-mod", 4);
    revs
}

#[test]
fn a_rollback_restores_the_target() {
    let mut revs = two_revisions();
    let slot = Slot::tool("t");
    let row = choose_rollback(&revs, &slot, None).unwrap();
    assert_eq!(row.revision, 1);
    let said = enter_rollback(&mut revs, &shelf(), &slot, 1, 9);
    assert_eq!(said, "tool/t rolled back to r0001 (from r0002)");
    assert_eq!(revs.active(&slot).unwrap().revision, 1);
    assert_eq!(revs.history(&slot)[1].status, Status::RolledBack);
    assert!(choose_rollback(&revs, &slot, Some(9)).is_err());
    assert!(choose_rollback(&revs, &Slot::Agent, None).is_err());
}

#[test]
fn undoing_the_last_change_is_the_snapshot_before_it() {
    let revs = two_revisions();
    assert_eq!(choose_snapshot(&revs, None).unwrap(), 1);
    assert_eq!(choose_snapshot(&revs, Some(2)).unwrap(), 2);
    assert!(choose_snapshot(&revs, Some(3)).is_err());
    assert_eq!(
        choose_snapshot(&Revisions::new(), None).unwrap_err(),
        "there is no earlier system snapshot"
    );
    let plan = plan_restore(revs.snapshot_by_id(1).unwrap());
    assert_eq!(plan, vec![(Slot::tool("t"), 1)]);
    assert_eq!(
        host::plan_rollback(&revs, &RollbackTarget::WholeSystem, None),
        Rollback::System(1)
    );
    assert_eq!(
        host::plan_rollback(&revs, &RollbackTarget::Tool("t".into()), Some(1)),
        Rollback::Slot(Slot::tool("t"), Some(1))
    );
}

#[test]
fn histories_list_revisions_and_snapshots() {
    let revs = two_revisions();
    let rows = host::history(&revs, &RollbackTarget::Tool("t".into()));
    assert_eq!(rows.len(), 2);
    assert_eq!(rows[1].status, "active");
    assert_eq!(rows[1].origin, "agent-mod");
    let all = host::history(&revs, &RollbackTarget::WholeSystem);
    assert_eq!(all[1].slot, "system");
    assert_eq!(all[1].note, "self-mod [tool/t=r0002]");
    assert_eq!(all[0].origin, "snapshot");
}

#[test]
fn marking_a_missing_revision_is_an_error() {
    let mut revs = two_revisions();
    assert!(revs.mark(&Slot::tool("t"), 1, Status::Disabled).is_ok());
    assert_eq!(revs.history(&Slot::tool("t"))[0].status, Status::Disabled);
    assert!(revs.mark(&Slot::tool("t"), 5, Status::Disabled).is_err());
}

#[test]
fn build_output_is_never_copied() {
    assert!(stays_in_place("target"));
    assert!(stays_in_place(".git"));
    assert!(!stays_in_place("src"));
    let names = ["src", "target", "Cargo.toml", ".git", "Target"].map(String::from).to_vec();
    assert_eq!(members_to_move(&names), vec!["src", "Cargo.toml", "Target"]);
}

// --- builds -----------------------------------------------------------------

#[test]
fn only_a_tested_build_goes_live() {
    let mut run = BuildRun::new(&Slot::tool("t"), Origin::AgentMod, "note");
    assert_eq!(run.step(BuildEvent::Begun { granted: true }, 0), BuildAction::Compile);
    assert_eq!(
        run.step(
            BuildEvent::Compiled { success: true, stderr: String::new(), artifact: true },
            1
        ),
        BuildAction::Compare
    );
    assert_eq!(
        run.step(
            BuildEvent::Compared {
                fresh: Some("new".into()),
                active: Some((1, "old".into())),
                serving: Some(1)
            },
            2
        ),
        BuildAction::Record
    );
    assert_eq!(run.step(BuildEvent::Recorded { revision: 2 }, 3), BuildAction::Load);
    assert_eq!(run.step(BuildEvent::Loaded { fault: None }, 4), BuildAction::Test);
    match run.step(BuildEvent::Tested { fault: None }, 5) {
        BuildAction::GoLive(_, outcome) => {
            assert!(outcome.success);
            assert_eq!(outcome.revision, Some(2));
            assert!(!outcome.pending_swap);
        }
        other => panic!("{other:?}"),
    }
}

#[test]
fn a_build_that_fails_leaves_what_runs_alone() {
    let mut run = BuildRun::new(&Slot::Agent, Origin::HumanEdit, "");
    assert!(matches!(
        run.step(BuildEvent::Begun { granted: false }, 0),
        BuildAction::Finish(ref o) if !o.success
    ));
    let mut broken = BuildRun::new(&Slot::Agent, Origin::HumanEdit, "");
    broken.step(BuildEvent::Begun { granted: true }, 0);
    match broken.step(
        BuildEvent::Compiled { success: false, stderr: "E".into(), artifact: false },
        1,
    ) {
        BuildAction::Finish(o) => {
            assert!(!o.success);
            assert_eq!(o.stderr, "E");
        }
        other => panic!("{other:?}"),
    }
}

#[test]
fn an_unchanged_build_is_not_recorded() {
    let mut run = BuildRun::new(&Slot::Agent, Origin::HumanEdit, "");
    run.step(BuildEvent::Begun { granted: true }, 0);
    run.step(BuildEvent::Compiled { success: true, stderr: String::new(), artifact: true }, 1);
    match run.step(
        BuildEvent::Compared {
            fresh: Some("h".into()),
            active: Some((4, "h".into())),
            serving: Some(4),
        },
        2,
    ) {
        BuildAction::Finish(o) => {
            assert!(o.success);
            assert_eq!(o.revision, Some(4));
        }
        other => panic!("{other:?}"),
    }
}

#[test]
fn a_tool_has_to_introduce_itself() {
    let slot = Slot::tool("t");
    let manifest = |name: &str, schema: &str| {
        Answer::Manifest(ToolManifest {
            name: name.into(),
            description: String::new(),
            args_schema_json: schema.into(),
            capabilities: Vec::new(),
        })
    };
    assert_eq!(judge(&slot, Probe::Instantiate, &Answer::Returned), Verdict::Ask(Probe::Describe));
    assert_eq!(
        judge(&slot, Probe::Describe, &manifest("t", "{\"type\":\"object\"}")),
        Verdict::Pass
    );
    assert!(matches!(judge(&slot, Probe::Describe, &manifest("", "{}")), Verdict::Fail(_)));
    assert!(matches!(judge(&slot, Probe::Describe, &manifest("t", "{")), Verdict::Fail(_)));
    assert!(matches!(
        judge(&slot, Probe::Describe, &Answer::Failed("trap".into())),
        Verdict::Fail(_)
    ));
}

// --- the admin page ---------------------------------------------------------

#[test]
fn escaping_leaves_no_tags() {
    assert_eq!(admin::html_escape("a & <b>"), "a &amp; &lt;b&gt;");
    assert_eq!(admin::html_escape("&lt;"), "&amp;lt;");
    assert_eq!(admin::html_escape("plain"), "plain");
}

#[test]
fn the_admin_page_lists_what_can_be_restored() {
    let revs = two_revisions();
    let mut live: Table<u64> = Table::new();
    live.insert("tool/t".to_string(), 2);
    let page = admin::render_admin(&revs, &shelf(), &live, 4, "BANNER");
    assert!(page.contains("BANNER"));
    assert!(page.contains("<tr><td>r0002 &larr; live</td><td class=\"active\">active</td>"));
    assert!(page.contains("first &lt;b&gt;"));
    assert!(page.contains("name=revision value=\"1\""));
    assert!(!page.contains("name=revision value=\"2\""));
    assert!(page.contains("tool/t=r0002"));
    assert!(page.contains("value=\"system:2\""));
    assert!(page.contains("4 session(s) on record."));
    // Newest first.
    assert!(page.find("r0002").unwrap() < page.find("r0001").unwrap());
    assert!(page.find("#2</td>").unwrap() < page.find("#1</td>").unwrap());
}

#[test]
fn an_empty_admin_page_says_so() {
    let page = admin::render_admin(&Revisions::new(), &bare(), &Table::new(), 0, "");
    assert!(page.contains("No components have been built yet."));
    assert!(page.contains("<em>none yet</em>"));
    assert!(page.starts_with("<!doctype html>"));
}

#[test]
fn only_the_latest_snapshots_are_shown() {
    let mut revs = Revisions::new();
    for i in 0..20 {
        revs.snapshot(&bare(), "cause", i);
    }
    let page = admin::render_admin(&revs, &bare(), &Table::new(), 0, "");
    assert_eq!(page.matches("restore all").count(), 15);
    assert!(page.contains("#20</td>"));
    assert!(page.contains("#6</td>"));
    assert!(!page.contains("#5</td>"));
}

#[test]
fn the_override_form_is_read() {
    assert_eq!(
        admin::read_override("tool/t", &Some(" 3 ".to_string())),
        Override::Slot(Slot::tool("t"), Some(3))
    );
    assert_eq!(
        admin::read_override("agent", &Some("x".to_string())),
        Override::Slot(Slot::Agent, None)
    );
    assert_eq!(admin::read_override("system:12", &None), Override::System(12));
    assert_eq!(
        admin::read_override("system:x", &None),
        Override::Refused("bad snapshot id".to_string())
    );
    assert_eq!(
        admin::read_override("what", &None),
        Override::Refused("unknown slot key: what".to_string())
    );
    assert_eq!(admin::banner(&Ok("a<b".to_string())), "<p class=\"banner ok\">a&lt;b</p>");
    assert_eq!(
        admin::banner(&Err("e".to_string())),
        "<p class=\"banner bad\">rollback failed: e</p>"
    );
    let page = admin::fallback_page("<x>");
    assert!(page.contains("<pre><code>&lt;x&gt;</code></pre>"));
    assert!(page.contains("<style>body{font:15px"));
}

// --- rolling back -----------------------------------------------------------

#[test]
fn a_rollback_takes_its_steps_in_order() {
    let revs = two_revisions();
    let slot = Slot::tool("t");
    let target = choose_rollback(&revs, &slot, None).map(|row| row.revision);
    let mut run = RollbackRun::new(&slot);
    assert_eq!(run.step(RollbackEvent::Chosen { target }), RollbackAction::Load(1));
    assert_eq!(run.step(RollbackEvent::Loaded { fault: None }), RollbackAction::Test);
    assert_eq!(run.step(RollbackEvent::Tested { fault: None }), RollbackAction::Mute);
    assert_eq!(run.step(RollbackEvent::Muted), RollbackAction::Restore(1));
    assert_eq!(run.step(RollbackEvent::Restored), RollbackAction::Install);
    assert_eq!(run.step(RollbackEvent::Installed), RollbackAction::Enter(1));
}

#[test]
fn a_rollback_that_cannot_be_trusted_changes_nothing() {
    let slot = Slot::tool("t");
    let mut run = RollbackRun::new(&slot);
    let target = choose_rollback(&Revisions::new(), &slot, None).map(|row| row.revision);
    assert_eq!(
        run.step(RollbackEvent::Chosen { target }),
        RollbackAction::Fail("tool/t has no earlier revision to fall back to".into())
    );

    let mut run = RollbackRun::new(&slot);
    run.step(RollbackEvent::Chosen { target: Ok(3) });
    assert_eq!(
        run.step(RollbackEvent::Loaded { fault: Some("no file".into()) }),
        RollbackAction::Fail("reloading tool/t r3: no file".into())
    );

    let mut run = RollbackRun::new(&slot);
    run.step(RollbackEvent::Chosen { target: Ok(3) });
    run.step(RollbackEvent::Loaded { fault: None });
    assert_eq!(
        run.step(RollbackEvent::Tested { fault: Some("trap".into()) }),
        RollbackAction::Fail("tool/t r3 failed its smoke test: trap".into())
    );
}

#[test]
fn a_restored_system_runs_the_snapshot() {
    let mut revs = two_revisions();
    revs.record(&Slot::Agent, Origin::Bootstrap, "", "h", 5);
    revs.activate(&Slot::Agent, 1, &shelf(), "boot", 6);
    assert_eq!(SystemRun::new(&revs, 9).err().unwrap(), "no system snapshot 9");

    let mut run = SystemRun::new(&revs, 1).ok().unwrap();
    let (slot, revision) = run.next().unwrap();
    assert_eq!((slot.key().as_str(), revision), ("tool/t", 1));
    let said = enter_rollback(&mut revs, &shelf(), &slot, revision, 7);
    run.note(Ok(said));
    assert!(run.next().is_none());
    assert_eq!(
        run.finish(&mut revs, &shelf(), 8),
        "system restored to snapshot 1: tool/t→r0001"
    );
    assert_eq!(revs.active(&Slot::tool("t")).unwrap().revision, 1);
    assert_eq!(revs.active(&Slot::Agent).unwrap().revision, 1);
    assert_eq!(revs.snapshots().last().unwrap().cause, "system rollback to snapshot 1");
}

#[test]
fn a_failed_part_of_a_restore_is_reported() {
    let mut revs = two_revisions();
    revs.record(&Slot::Agent, Origin::Bootstrap, "", "h", 5);
    revs.activate(&Slot::Agent, 1, &shelf(), "boot", 6);
    let mut run = SystemRun::new(&revs, 3).ok().unwrap();
    run.note(Err("no file".into()));
    run.note(Ok("done".into()));
    assert_eq!(
        run.finish(&mut revs, &shelf(), 7),
        "system partially restored to snapshot 3: tool/t→r0002 restored; failures: agent: no file"
    );
}

#[test]
fn there_is_always_a_floor() {
    let mut revs = Revisions::new();
    let slot = Slot::tool("t");
    revs.record(&slot, Origin::Bootstrap, "", "h", 1);
    // Nothing has run yet: the pinned first revision is the floor.
    assert_eq!(revs.last_known_good(&slot).unwrap().revision, 1);
    revs.activate(&slot, 1, &shelf(), "boot", 2);
    assert!(revs.last_known_good(&slot).is_none());
    revs.record(&slot, Origin::AgentMod, "", "h", 3);
    revs.activate(&slot, 2, &shelf(), "self-mod", 4);
    assert_eq!(revs.last_known_good(&slot).unwrap().revision, 1);
}

#[test]
fn an_outcome_is_handed_back_as_a_report() {
    let outcome = Outcome {
        success: true,
        slot: "agent".into(),
        revision: Some(4),
        stderr: "warning".into(),
        duration_ms: 12,
        detail: "d".into(),
        pending_swap: true,
    };
    let report = outcome.into_report();
    assert!(report.success && report.pending_swap);
    assert_eq!((report.slot.as_str(), report.revision), ("agent", Some(4)));
    assert_eq!((report.stderr.as_str(), report.duration_ms), ("warning", 12));
    assert_eq!(report.detail, "d");
}
