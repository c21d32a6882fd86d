use std::time::Instant;

use genesis::config::ControlSettings;
use genesis::control::{mark_start, request_restart, uptime, uptime_at, Shown, Start};
use genesis::runtime::{granted, may_block, preopen_name, Budget, Caps, Interface};
use genesis::slot::Slot;
use genesis::time::Span;
use genesis::watchdog::{judge_probe, report_trip, Breakers};

#[test]
fn budget_allows_work_within_limits() {
    let b = Budget::new("turn", Span::from_secs(60), Span::from_secs(10));
    assert!(b.violation().is_none());
}

fn wait_ms(ms: u128) {
    let started = Instant::now();
    while started.elapsed().as_millis() < ms {}
}

#[test]
fn budget_trips_on_wall_clock() {
    let mut b = Budget::new("turn", Span::from_millis(1), Span::from_secs(60));
    wait_ms(5);
    b.yielded(); // even after yielding, the total budget still applies
    let v = b.violation().expect("should trip");
    assert!(v.contains("wall-clock"), "{v}");
}

#[test]
fn budget_trips_on_spin_without_yielding() {
    let b = Budget::new("turn", Span::from_secs(60), Span::from_millis(1));
    wait_ms(5);
    let v = b.violation().expect("should trip");
    assert!(v.contains("infinite loop"), "{v}");
}

#[test]
fn yielding_resets_the_spin_timer() {
    for _ in 0..50 {
        let mut b = Budget::new("turn", Span::from_secs(60), Span::from_millis(20));
        wait_ms(15);
        let before = Instant::now();
        b.yielded();
        wait_ms(15);
        let v = b.violation();
        let busy = before.elapsed().as_millis() >= 20;
        // 30ms elapsed in total but only 15ms since the last host call. On a busy
        // machine it may have been more: then the budget goes by what it was.
        let later = b.started.read();
        assert!(!later.shorter_than(&Span::from_millis(30)));
        let spinning = later.since(&b.last_yield);
        assert!(!b.last_yield.shorter_than(&Span::from_millis(15)));
        let spun = Span::from_millis(20).shorter_than(&spinning);
        assert_eq!(b.violation_at(later, spinning).is_some(), spun);
        if !busy {
            assert!(v.is_none(), "{v:?}");
            return;
        }
    }
}

#[test]
fn yielding_moves_the_last_yield_and_nothing_else() {
    let mut b = Budget::new("turn", Span::from_secs(60), Span::from_secs(10));
    wait_ms(5);
    b.yielded();
    assert!(!b.last_yield.shorter_than(&Span::from_millis(5)));
    assert_eq!((b.label.as_str(), b.cancelled), ("turn", false));
    assert_eq!((b.total, b.slice), (Span::from_secs(60), Span::from_secs(10)));
    // The call's own clock runs on.
    wait_ms(5);
    assert!(!b.started.read().shorter_than(&Span::from_millis(10)));
}

#[test]
fn a_budget_is_judged_at_a_given_time() {
    let later = Span::from_millis(5);
    let mut b = Budget::new("turn", Span::from_millis(1), Span::from_secs(60));
    b.yielded_at(later);
    assert_eq!(
        b.violation_at(later, later.since(&b.last_yield)).unwrap(),
        "turn: exceeded wall-clock budget of 1ms (ran 5ms)"
    );
    let b = Budget::new("turn", Span::from_secs(60), Span::from_millis(1));
    assert_eq!(
        b.violation_at(later, later.since(&b.last_yield)).unwrap(),
        "turn: ran 5ms without yielding to a host call (limit 1ms) — likely an infinite loop"
    );
    let mut b = Budget::new("turn", Span::from_secs(60), Span::from_millis(20));
    b.yielded_at(Span::from_millis(15));
    let later = Span::from_millis(30);
    assert!(b.violation_at(later, later.since(&b.last_yield)).is_none());
}

#[test]
fn cancellation_is_a_violation() {
    let mut b = Budget::new("turn", Span::from_secs(60), Span::from_secs(60));
    b.cancelled = true;
    assert!(b.violation().unwrap().contains("cancelled"));
}

#[test]
fn a_probe_may_take_all_its_time_at_once() {
    let mut b = Budget::probe("probe", Span::from_secs(3));
    assert_eq!(b.total, b.slice);
    assert!(b.violation_at(Span::from_secs(3), Span::from_secs(3)).is_none());
    b.yielded();
    assert!(b.last_yield.shorter_than(&Span::from_secs(60)));
}

#[test]
fn spans_subtract_and_add() {
    let a = Span::from_millis(1500);
    let b = Span::from_millis(700);
    assert_eq!(a.since(&b), Span::from_millis(800));
    assert_eq!(b.since(&a), Span::from_millis(0));
    assert_eq!(a.plus(&b), Span::from_millis(2200));
    assert_eq!(a.as_millis(), 1500);
    assert!(Span::from_secs(0).is_zero());
}

#[test]
fn only_the_agent_gets_the_host() {
    for caps in [Caps::Gateway, Caps::Tool] {
        let list = granted(caps);
        for i in [
            Interface::Devkit,
            Interface::Hostfs,
            Interface::Terminal,
            Interface::Control,
            Interface::Configuration,
            Interface::Llm,
        ] {
            assert!(!list.contains(&i));
        }
    }
    assert!(granted(Caps::Agent).contains(&Interface::Devkit));
    assert!(granted(Caps::Gateway).contains(&Interface::Session));
    assert!(granted(Caps::Tool).contains(&Interface::Sandbox));
    assert!(!granted(Caps::Tool).contains(&Interface::Session));
}

#[test]
fn slow_calls_count_as_yielding() {
    for (interface, name) in [
        (Interface::Session, "available-tools"),
        (Interface::Llm, "chat"),
        (Interface::Llm, "stream-open"),
        (Interface::Llm, "stream-next"),
        (Interface::Tooling, "invoke"),
        (Interface::Devkit, "new-tool"),
        (Interface::Devkit, "write-file"),
        (Interface::Devkit, "patch-file"),
        (Interface::Devkit, "add-dependency"),
        (Interface::Devkit, "remove-dependency"),
        (Interface::Devkit, "rollback"),
        (Interface::Terminal, "open"),
        (Interface::Terminal, "run"),
        (Interface::Terminal, "close"),
        (Interface::Terminal, "sessions"),
        (Interface::Configuration, "set"),
    ] {
        assert!(may_block(interface, name), "{name}");
    }
    for (interface, name) in [
        (Interface::Sys, "log"),
        (Interface::Llm, "stream-close"),
        (Interface::Devkit, "read-file"),
        (Interface::Hostfs, "write-file"),
        (Interface::Terminal, "read"),
        (Interface::Sandbox, "exec"),
        (Interface::Control, "restart"),
        (Interface::Terminal, "ru"),
    ] {
        assert!(!may_block(interface, name), "{name}");
    }
}

#[test]
fn preopens_go_by_their_last_name() {
    assert_eq!(preopen_name("/srv/shared"), "shared");
    assert_eq!(preopen_name("/"), "workspace");
}

// --- breakers ---------------------------------------------------------------

fn breakers() -> Breakers {
    Breakers::new(Span::from_secs(120), 3)
}

#[test]
fn breaker_trips_only_after_repeated_failures() {
    let mut b = breakers();
    let slot = Slot::Agent;

    assert!(!b.record_failure(&slot), "one failure is not a pattern");
    assert!(!b.record_failure(&slot));
    assert!(b.record_failure(&slot), "third failure trips it");
}

#[test]
fn breakers_are_per_slot() {
    let mut b = breakers();
    b.record_failure(&Slot::Agent);
    b.record_failure(&Slot::Agent);

    // A different slot must not inherit the agent's failures.
    assert!(!b.record_failure(&Slot::gateway("web")));
    assert_eq!(b.failure_count(&Slot::Agent), 2);
    assert_eq!(b.failure_count(&Slot::gateway("web")), 1);
}

#[test]
fn slots_without_a_name_have_breakers_of_their_own() {
    let mut b = breakers();
    b.record_failure(&Slot::tool(""));
    b.record_failure(&Slot::tool(""));
    assert!(!b.record_failure(&Slot::gateway("")));
    assert_eq!(b.failure_count(&Slot::tool("")), 2);
    assert_eq!(b.failure_count(&Slot::gateway("")), 1);
    assert_eq!(b.failure_count(&Slot::Agent), 0);
}

#[test]
fn recovery_clears_the_breaker() {
    let mut b = breakers();
    let slot = Slot::tool("flaky");

    b.record_failure(&slot);
    b.record_failure(&slot);
    b.clear(&slot);

    assert_eq!(b.failure_count(&slot), 0);
    assert!(!b.record_failure(&slot), "counting restarts after recovery");
}

#[test]
fn old_failures_are_forgotten() {
    let mut b = breakers();
    let slot = Slot::Agent;
    assert!(!b.record_failure_at(&slot, Span::from_secs(0)));
    assert!(!b.record_failure_at(&slot, Span::from_secs(100)));
    // The first is out of the window by now, the second is not.
    assert!(!b.record_failure_at(&slot, Span::from_secs(120)));
    assert_eq!(b.failure_count(&slot), 2);
    assert!(b.record_failure_at(&slot, Span::from_secs(121)));
}

#[test]
fn a_trip_is_reported_with_what_came_of_it() {
    let mut b = breakers();
    let slot = Slot::tool("flaky");
    b.record_failure(&slot);
    let stuck = report_trip(&mut b, &slot, "boom", &Err("nothing to go back to".to_string()));
    assert_eq!(
        stuck,
        "tool/flaky kept failing (boom) and could not be rolled back: nothing to go back to"
    );
    assert_eq!(b.failure_count(&slot), 1);
    let saved = report_trip(&mut b, &slot, "boom", &Ok("back on r1".to_string()));
    assert_eq!(saved, "tool/flaky kept failing (boom); back on r1");
    assert_eq!(b.failure_count(&slot), 0);
}

#[test]
fn a_silent_agent_fails_its_probe() {
    assert_eq!(judge_probe(&None), None);
    assert_eq!(judge_probe(&Some(Ok("ok".to_string()))), None);
    assert_eq!(
        judge_probe(&Some(Ok("  ".to_string()))),
        Some("health probe: health returned nothing".to_string())
    );
    assert_eq!(
        judge_probe(&Some(Err("trap".to_string()))),
        Some("health probe: trap".to_string())
    );
}

// --- restarts ---------------------------------------------------------------

#[test]
fn uptime_is_zero_until_marked() {
    // Nothing has called mark_start, so the guard reads as a brand new process,
    // which is the conservative direction.
    let mut start = Start::new();
    assert!(uptime(&start).shorter_than(&Span::from_secs(1)));
    assert!(uptime(&start).is_zero());
    mark_start(&mut start);
    mark_start(&mut start);
    assert!(uptime(&start).shorter_than(&Span::from_secs(15)));
}

#[test]
fn uptime_is_what_the_clock_of_the_start_reads() {
    assert_eq!(uptime_at(Some(Span::from_millis(1500))), Span::from_millis(1500));
    assert_eq!(uptime_at(None), Span::from_secs(0));
    let mut start = Start::new();
    mark_start(&mut start);
    let marked = Instant::now();
    while marked.elapsed().as_millis() < 5 {}
    assert!(!uptime(&start).shorter_than(&Span::from_millis(5)));
}

fn control(allow: bool) -> ControlSettings {
    ControlSettings {
        allow_restart: allow,
        min_uptime: Span::from_secs(30),
        restart_delay: Span::from_millis(1500),
    }
}

fn shown() -> Shown {
    Shown { up: "12".to_string(), min: "30".to_string(), delay: "1.5".to_string() }
}

#[test]
fn restarts_can_be_off_or_too_early() {
    let off = request_restart(&control(false), Span::from_secs(99), &shown(), "x", true, None);
    assert_eq!(
        off.unwrap_err(),
        "restarting is off; set control.allow_restart in genesis.toml to turn it on"
    );
    let early = request_restart(&control(true), Span::from_secs(12), &shown(), "x", true, None);
    assert_eq!(
        early.unwrap_err(),
        "this process has only been up 12s; restarts are refused before 30s so a failing restart cannot become a loop"
    );
}

#[test]
fn a_restart_says_what_becomes_of_the_turn() {
    let plan = request_restart(
        &control(true),
        Span::from_secs(30),
        &shown(),
        "  new binary ",
        false,
        Some("s1"),
    )
    .unwrap();
    assert_eq!(plan.delay, Span::from_millis(1500));
    assert_eq!(plan.no_resume, Some(("s1".to_string(), true)));
    assert_eq!(plan.message, "restarting in 1.5s: new binary. This turn ends here.");
    let resumed =
        request_restart(&control(true), Span::from_secs(31), &shown(), "x", true, None).unwrap();
    assert_eq!(resumed.no_resume, None);
    assert!(resumed.message.contains("will carry on"));
}
