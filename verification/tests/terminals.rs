use genesis::config::file::File;
use genesis::config::{Catalogue, Config, ModelSpec, TerminalSettings};
use genesis::table::Table;
use genesis::terminal::{
    cannot_start, cannot_write, clip, echo_marker, not_a_directory, poll, pump,
    split_at_marker, starting_dir, wait_for, Terminals,
};
use genesis::time::Span;

fn offer() -> Catalogue {
    Catalogue {
        model: "openai/gpt-4o".to_string(),
        models: vec![ModelSpec {
            id: "openai/gpt-4o".to_string(),
            label: "GPT-4o".to_string(),
        }],
    }
}

#[test]
fn marker_absent_means_the_command_is_still_running() {
    let mut buf = "building...\n".to_string();
    assert!(split_at_marker(&mut buf, "__genesis_done_1__").is_none());
    // Nothing is consumed while waiting.
    assert_eq!(buf.as_str(), "building...\n");
}

#[test]
fn output_before_the_marker_is_returned_and_consumed() {
    let mut buf = "line one\nline two\n__genesis_done_1__\nleftover\n".to_string();
    let output = split_at_marker(&mut buf, "__genesis_done_1__").unwrap();
    assert_eq!(output, "line one\nline two");
    // What arrived after belongs to whatever comes next.
    assert_eq!(buf.as_str(), "leftover\n");
}

#[test]
fn an_echoed_command_line_does_not_end_the_command_early() {
    // Some shells echo the line that will print the marker; the real
    // completion is the last occurrence, not the first.
    let mut buf =
        "Write-Output '__genesis_done_2__'\nreal output\n__genesis_done_2__\n".to_string();
    let output = split_at_marker(&mut buf, "__genesis_done_2__").unwrap();
    assert_eq!(output, "real output");
}

#[test]
fn output_is_clipped_from_the_front_keeping_the_end() {
    let text = format!("{}IMPORTANT TAIL", "x".repeat(500));
    let clipped = clip(text, 50);
    assert!(clipped.ends_with("IMPORTANT TAIL"), "{clipped}");
    assert!(clipped.starts_with("[earlier output trimmed]"));
}

#[test]
fn short_output_is_left_alone() {
    assert_eq!(clip("done".to_string(), 100), "done");
}

#[test]
fn clipping_never_splits_a_character() {
    assert_eq!(clip("aäb".to_string(), 2), "[earlier output trimmed]\nb");
    assert_eq!(clip("aäb".to_string(), 3), "[earlier output trimmed]\näb");
    assert_eq!(clip("aäb".to_string(), 4), "aäb");
}

fn config() -> Config {
    let env: Table<String> = Table::new();
    Config::assemble(
        "/work",
        "/work/genesis.toml",
        File::default(),
        &env,
        &offer(),
        false,
        None,
        Ok(String::new()),
    )
    .unwrap()
}

#[test]
fn the_marker_echo_matches_the_shell() {
    let mut cfg = config();
    cfg.terminal.shell = "powershell".into();
    assert!(echo_marker(&cfg.terminal, "M").starts_with("Write-Output"));
    cfg.terminal.shell = "sh".into();
    assert!(echo_marker(&cfg.terminal, "M").starts_with("echo"));
    cfg.terminal.shell = "C:/Program Files/PowerShell/7/PWSH.exe".into();
    assert_eq!(echo_marker(&cfg.terminal, "M"), "Write-Output 'M'");
    cfg.terminal.shell = "/bin/bash".into();
    assert_eq!(echo_marker(&cfg.terminal, "M"), "echo 'M'");
}

#[test]
fn a_poll_waits_until_the_marker_or_the_deadline() {
    let mut buf = "partial\n".to_string();
    assert_eq!(poll(&mut buf, "M", 100, false), None);
    let late = poll(&mut buf, "M", 4, true).unwrap();
    assert!(late.timed_out);
    assert!(late.truncated);
    assert_eq!(late.output, "[earlier output trimmed]\nial\n");
    assert_eq!(buf, "");
    let mut done = "ok\nM\nrest".to_string();
    let out = poll(&mut done, "M", 100, true).unwrap();
    assert_eq!(out.output, "ok");
    assert!(!out.timed_out && !out.truncated);
    assert_eq!(done, "rest");
}

#[test]
fn buffers_do_not_grow_without_bound() {
    let mut buf = String::new();
    for _ in 0..100 {
        pump(&mut buf, "0123456789", 20);
        assert!(buf.len() <= 80);
    }
    assert!(buf.ends_with("0123456789\n"));
}

#[test]
fn a_kept_tail_begins_with_a_whole_character() {
    let mut buf = String::new();
    for _ in 0..20 {
        pump(&mut buf, "äöü€😀", 5);
        assert!(buf.len() <= 20);
        assert!(buf.ends_with("€😀\n"));
    }
}

#[test]
fn a_marker_is_used_up_once_it_was_found() {
    let mut buf = "out\nM\nlater\n".to_string();
    assert_eq!(split_at_marker(&mut buf, "M").as_deref(), Some("out"));
    assert_eq!(buf, "later\n");
    assert!(split_at_marker(&mut buf, "M").is_none());
}

#[test]
fn numbers_and_counts_can_run_on() {
    let mut t = Terminals::new();
    let now = Span::from_secs(1);
    assert!(t.has_numbers_left());
    assert!(!t.may_count("term-1"));
    let id = t.open(&settings(), "/work", now);
    assert!(t.may_count(&id));
    t.wrote(&id, now);
    assert!(t.may_count(&id) && t.has_numbers_left());
}

fn settings() -> TerminalSettings {
    TerminalSettings {
        enabled: true,
        shell: "sh".to_string(),
        shell_args: Vec::new(),
        max_sessions: 2,
        default_timeout: Span::from_secs(30),
        max_output_bytes: 1000,
        idle_timeout: Span::from_secs(60),
    }
}

#[test]
fn sessions_are_opened_up_to_a_limit() {
    let mut t = Terminals::new();
    let cfg = settings();
    let now = Span::from_secs(1);
    assert!(t.make_room(&cfg, &Vec::new(), now).is_ok());
    assert_eq!(t.open(&cfg, "/work", now), "term-1");
    assert_eq!(t.open(&cfg, "/work/a", now), "term-2");
    assert_eq!(
        t.make_room(&cfg, &Vec::new(), now).unwrap_err(),
        "already at the limit of 2 terminal sessions; close one first"
    );
    // One whose shell has exited makes room.
    assert!(t.make_room(&cfg, &vec!["term-1".to_string()], now).is_ok());
    assert!(!t.has("term-1"));
    assert!(t.has("term-2"));
    assert_eq!(t.open(&cfg, "/work", now), "term-3");
    let list = t.list(&vec!["term-3".to_string()]);
    assert_eq!(list.len(), 2);
    assert_eq!(list[0].id, "term-2");
    assert!(!list[0].alive);
    assert!(list[1].alive);
    assert_eq!(list[0].cwd, "/work/a");
}

#[test]
fn idle_sessions_are_reaped() {
    let mut t = Terminals::new();
    let mut cfg = settings();
    t.open(&cfg, "/work", Span::from_secs(0));
    t.open(&cfg, "/work", Span::from_secs(50));
    t.reap(&cfg, &Vec::new(), Span::from_secs(60));
    assert!(t.has("term-1"), "exactly the idle time is not too long");
    t.reap(&cfg, &Vec::new(), Span::from_secs(61));
    assert!(!t.has("term-1"));
    assert!(t.has("term-2"));
    // No idle time means forever.
    cfg.idle_timeout = Span::from_secs(0);
    t.reap(&cfg, &Vec::new(), Span::from_secs(9999));
    assert!(t.has("term-2"));
}

#[test]
fn commands_are_followed_by_a_fresh_marker() {
    let mut t = Terminals::new();
    let cfg = settings();
    let now = Span::from_secs(1);
    let id = t.open(&cfg, "/work", now);
    let mut buf = "left over".to_string();
    assert!(t.begin(&cfg, "nope", "ls", false, &mut buf).is_err());
    assert_eq!(buf, "left over");
    let first = t.begin(&cfg, &id, "ls", false, &mut buf).unwrap();
    assert_eq!(buf, "");
    assert_eq!(first.marker, "__genesis_done_2__");
    assert_eq!(first.script, "ls\necho '__genesis_done_2__'\n");
    t.wrote(&id, now);
    let second = t.begin(&cfg, &id, "ls", false, &mut buf).unwrap();
    assert_ne!(first.marker, second.marker);
    assert_eq!(t.list(&Vec::new())[0].commands, 1);
    assert_eq!(t.begin(&cfg, "nope", "ls", false, &mut buf).unwrap_err(), "no terminal session nope");
    assert_eq!(
        t.begin(&cfg, &id, "ls", true, &mut buf).unwrap_err(),
        "terminal session term-1 has exited; open a new one"
    );
    let mut off = settings();
    off.enabled = false;
    assert!(t.begin(&off, &id, "ls", false, &mut buf).unwrap_err().contains("terminal access is off"));
    assert!(t.make_room(&off, &Vec::new(), now).unwrap_err().contains("terminal access is off"));
}

#[test]
fn reading_takes_what_is_there() {
    let mut t = Terminals::new();
    let cfg = settings();
    let now = Span::from_secs(1);
    let id = t.open(&cfg, "/work", now);
    let mut buf = "text".to_string();
    assert_eq!(t.read(&id, &mut buf, now).unwrap(), "text");
    assert_eq!(buf, "");
    let mut other = "kept".to_string();
    assert!(t.read("nope", &mut other, now).is_err());
    assert_eq!(other, "kept");
    assert_eq!(t.close(&id).unwrap(), "closed term-1");
    assert_eq!(t.close(&id).unwrap_err(), "no terminal session term-1");
    t.open(&cfg, "/work", now);
    t.close_all();
    assert!(t.list(&Vec::new()).is_empty());
}

#[test]
fn sessions_start_in_the_first_root() {
    let mut cfg = config();
    cfg.filesystem.roots = vec!["/a".to_string(), "/b".to_string()];
    assert_eq!(starting_dir(&cfg), "/a");
    cfg.filesystem.roots = Vec::new();
    assert_eq!(starting_dir(&cfg), "/work");
    assert_eq!(wait_for(&settings(), 0), Span::from_secs(30));
    assert_eq!(wait_for(&settings(), 250), Span::from_millis(250));
}

#[test]
fn what_goes_wrong_with_a_shell_is_named() {
    let mut file = File::default();
    file.terminal.shell = "zsh".to_string();
    let env: Table<String> = Table::new();
    let cfg = Config::assemble(
        "/w",
        "/w/genesis.toml",
        file,
        &env,
        &offer(),
        false,
        None,
        Ok(String::new()),
    )
    .unwrap();
    assert_eq!(cannot_start(&cfg.terminal, "gone"), "cannot start zsh: gone");
    assert_eq!(cannot_write("term-1", "closed"), "cannot write to term-1: closed");
    assert_eq!(not_a_directory("/w/x"), "/w/x is not a directory");
}
