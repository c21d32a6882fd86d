use genesis::config::file::File;
use genesis::config::{Catalogue, Config, ModelSpec};
use genesis::devkit;
use genesis::devkit::{resolve_path, target_to_slot};
use genesis::hostfs;
use genesis::hostfs::{seek, Look, Place, Seen, Step, Victim};
use genesis::slot::Slot;
use genesis::table::Table;
use genesis::types::{FsEntry, ModTarget};

fn offer() -> Catalogue {
    Catalogue {
        model: "openai/gpt-4o".to_string(),
        models: vec![ModelSpec {
            id: "openai/gpt-4o".to_string(),
            label: "GPT-4o".to_string(),
        }],
    }
}

fn config() -> Config {
    let env: Table<String> = Table::new();
    let mut file = File::default();
    file.filesystem.enabled = true;
    file.filesystem.roots = vec!["/work".to_string()];
    Config::assemble("/work", "/work/genesis.toml", file, &env, &offer(), false, None, Ok(String::new()))
        .unwrap()
}

/// What the disk says of a path on a disk where everything exists and nothing is
/// a link.
fn as_is(cfg: &Config, path: &str) -> Look {
    Look { place: Place::Reached(path.to_string(), 0), roots: cfg.filesystem.roots.clone() }
}

fn resolved(cfg: &Config, raw: &str) -> Result<String, String> {
    let path = hostfs::locate(cfg, raw)?;
    hostfs::resolve(cfg, &path, &as_is(cfg, &path))
}

#[test]
fn refuses_to_escape_the_roots() {
    let cfg = config();
    for bad in [
        "../outside.txt",
        "src/../../outside.txt",
        "/etc/passwd",
        "C:/Windows/System32/drivers/etc/hosts",
    ] {
        let err = resolved(&cfg, bad).unwrap_err();
        assert!(
            err.contains("outside the allowed roots"),
            "{bad} gave: {err}"
        );
    }
}

#[test]
fn a_colon_is_part_of_a_name_unless_a_drive_starts_there() {
    let cfg = config();
    assert_eq!(resolved(&cfg, "c:x").unwrap(), "/work/c:x");
    assert_eq!(resolved(&cfg, "src/c:/x").unwrap(), "/work/src/c:/x");
    assert_eq!(hostfs::locate(&cfg, " C:/x ").unwrap(), "/C:/x");
    assert_eq!(hostfs::locate(&cfg, "C:/").unwrap(), "/C:");
}

#[test]
fn traversal_that_stays_inside_is_allowed() {
    let cfg = config();
    // Normalises to src/main.rs, which is within the root.
    assert_eq!(resolved(&cfg, "src/../src/main.rs").unwrap(), "/work/src/main.rs");
}

#[test]
fn a_link_that_leads_outside_is_refused() {
    let cfg = config();
    let path = hostfs::locate(&cfg, "link/x").unwrap();
    let at = |real: &str, missing: usize| Look {
        place: Place::Reached(real.to_string(), missing),
        roots: vec!["/work".to_string()],
    };
    assert!(hostfs::resolve(&cfg, &path, &at("/elsewhere/x", 0)).is_err());
    assert!(hostfs::resolve(&cfg, &path, &at("/elsewhere", 1)).is_err());
    // However much below the link is yet to be created.
    let deep = hostfs::locate(&cfg, "link/new/deep/x").unwrap();
    assert_eq!(
        hostfs::resolve(&cfg, &deep, &at("/elsewhere", 3)),
        Err("/work/link/new/deep/x is outside the allowed roots (/work)".to_string())
    );
    // A link that stays inside is followed.
    assert_eq!(hostfs::resolve(&cfg, &deep, &at("/work/other", 3)), Ok(deep.clone()));
    // A look that found nothing of the path accepts nothing.
    assert!(hostfs::resolve(&cfg, &deep, &at("/work", usize::MAX)).is_err());
    let nowhere = Look { place: Place::Nowhere, roots: vec!["/work".to_string()] };
    assert!(hostfs::resolve(&cfg, &deep, &nowhere).is_err());
}

#[test]
fn a_path_may_be_created_below_what_exists() {
    let cfg = config();
    let path = hostfs::locate(&cfg, "a/b/c.txt").unwrap();
    let look = Look {
        place: Place::Reached("/work".to_string(), 3),
        roots: vec!["/work".to_string()],
    };
    assert_eq!(hostfs::resolve(&cfg, &path, &look), Ok("/work/a/b/c.txt".to_string()));
}

/// Where a path leads on a disk that holds these paths, each leading somewhere, or
/// nowhere.
fn found(disk: &[(&str, Option<&str>)], path: &str) -> Place {
    let (mut at, mut missing) = (path.to_string(), 0);
    loop {
        let seen = match disk.iter().find(|(p, _)| *p == at) {
            Some((_, Some(real))) => Seen::At(real.to_string()),
            Some((_, None)) => Seen::Astray,
            None => Seen::Absent,
        };
        match seek(&at, missing, seen) {
            Step::Done(place) => return place,
            Step::Above(above, more) => (at, missing) = (above, more),
        }
    }
}

#[test]
fn the_nearest_path_that_exists_is_looked_for() {
    let disk =
        [("/work", Some("/work")), ("/work/link", Some("/elsewhere")), ("/work/gone", None)];
    assert_eq!(found(&disk, "/work"), Place::Reached("/work".into(), 0));
    assert_eq!(found(&disk, "/work/a/b/c"), Place::Reached("/work".into(), 3));
    assert_eq!(found(&disk, "/work/link/new/x"), Place::Reached("/elsewhere".into(), 2));
    // A link that leads nowhere is the end of it: what it names is not created.
    assert_eq!(found(&disk, "/work/gone"), Place::Nowhere);
    assert_eq!(found(&disk, "/work/gone/x"), Place::Nowhere);
    assert_eq!(found(&[], "/work/x"), Place::Nowhere);
    assert_eq!(found(&[("/", Some("/"))], "/work/x"), Place::Reached("/".into(), 2));
}

#[test]
fn an_empty_path_leads_nowhere() {
    let mut cfg = config();
    assert_eq!(hostfs::locate(&cfg, "  ").unwrap_err(), "path is empty");
    cfg.filesystem.roots = Vec::new();
    assert_eq!(
        hostfs::locate(&cfg, "a").unwrap_err(),
        "no filesystem roots are configured"
    );
}

fn victim(cfg: &Config, path: &str, is_dir: bool, entries: u64) -> Victim {
    Victim {
        path: path.to_string(),
        roots: cfg.filesystem.roots.clone(),
        exists: true,
        is_dir,
        entries,
        names: Vec::new(),
    }
}

#[test]
fn protected_paths_survive_writes_and_deletes() {
    let cfg = config();
    let db = hostfs::reach(&cfg, "data/genesis.redb").unwrap();
    let write = hostfs::check_write(&cfg, &db, false).unwrap_err();
    assert!(write.contains("protected"), "{write}");

    let data = hostfs::reach_to_delete(&cfg, "data").unwrap();
    let delete =
        hostfs::check_delete(&cfg, &data, true, &victim(&cfg, &data, true, 1)).unwrap_err();
    assert!(delete.contains("protected"), "{delete}");

    // The database can still be read.
    assert!(hostfs::check_read(&cfg, &db, 5).is_ok());
}

#[test]
fn a_directory_goes_only_if_nothing_below_it_is_protected() {
    let mut cfg = config();
    cfg.filesystem.protected = vec!["Genesis.redb".to_string()];
    let src = hostfs::reach_to_delete(&cfg, "src").unwrap();
    let mut v = victim(&cfg, &src, true, 1);
    v.names = vec!["deep".to_string(), "genesis.redb".to_string(), "x".to_string()];
    assert_eq!(
        hostfs::check_delete(&cfg, &src, true, &v),
        Err("genesis.redb is protected and cannot be deleted".to_string())
    );
    v.names = vec!["deep".to_string(), "x".to_string()];
    assert_eq!(hostfs::check_delete(&cfg, &src, true, &v), Ok(()));
}

#[test]
fn a_root_itself_cannot_be_deleted() {
    let cfg = config();
    let root = hostfs::reach_to_delete(&cfg, ".").unwrap();
    let err = hostfs::check_delete(&cfg, &root, true, &victim(&cfg, &root, true, 2)).unwrap_err();
    assert!(err.contains("configured root"), "{err}");
}

#[test]
fn a_non_empty_directory_needs_recursive() {
    let cfg = config();
    let src = hostfs::reach_to_delete(&cfg, "src").unwrap();
    let err = hostfs::check_delete(&cfg, &src, false, &victim(&cfg, &src, true, 1)).unwrap_err();
    assert!(err.contains("recursive"), "{err}");

    assert!(hostfs::check_delete(&cfg, &src, true, &victim(&cfg, &src, true, 1)).is_ok());
    assert!(hostfs::check_delete(&cfg, &src, false, &victim(&cfg, &src, true, 0)).is_ok());
    assert_eq!(hostfs::deleted(&cfg, &src), "deleted src");
}

#[test]
fn listing_puts_directories_first() {
    let entry = |name: &str, is_dir: bool| FsEntry {
        name: name.to_string(),
        path: name.to_string(),
        is_dir,
        size: 0,
    };
    let entries = hostfs::list_dir(vec![
        entry("a.txt", false),
        entry("src", true),
        entry("data", true),
    ]);
    let names: Vec<&str> = entries.iter().map(|e| e.name.as_str()).collect();
    assert_eq!(names, vec!["data", "src", "a.txt"]);
    assert!(entries[0].is_dir);
}

#[test]
fn everything_is_refused_when_turned_off() {
    let mut cfg = config();
    cfg.filesystem.enabled = false;

    for result in [
        hostfs::reach(&cfg, "src/main.rs").err(),
        hostfs::reach(&cfg, "x.txt").err(),
        hostfs::reach_to_delete(&cfg, "src/main.rs").err(),
        hostfs::reach(&cfg, ".").err(),
    ] {
        let err = result.expect("should be refused");
        assert!(err.contains("filesystem access is off"));
    }
}

#[test]
fn deleting_can_be_turned_off_on_its_own() {
    let mut cfg = config();
    cfg.filesystem.allow_delete = false;

    let err = hostfs::reach_to_delete(&cfg, "src/main.rs").unwrap_err();
    assert!(err.contains("deleting is off"), "{err}");
    // Reading and writing still work.
    assert!(hostfs::reach(&cfg, "src/main.rs").is_ok());
}

#[test]
fn a_read_over_the_limit_is_refused_rather_than_truncated() {
    let mut cfg = config();
    cfg.filesystem.max_read_bytes = 4;
    let path = hostfs::reach(&cfg, "src/main.rs").unwrap();
    let err = hostfs::check_read(&cfg, &path, 12).unwrap_err();
    assert!(err.contains("read limit"), "{err}");
    assert!(hostfs::check_read(&cfg, &path, 4).is_ok());
}

#[test]
fn a_write_says_how_much_it_wrote() {
    let cfg = config();
    let path = hostfs::reach(&cfg, "notes/todo.md").unwrap();
    assert!(hostfs::check_write(&cfg, &path, false).is_ok());
    assert!(hostfs::check_write(&cfg, &path, true).is_err());
    let said = hostfs::wrote(&cfg, &path, "- ship it");
    assert!(said.contains("9") && said.contains("notes/todo.md"), "{said}");
}

#[test]
fn extended_windows_paths_are_shown_plainly() {
    assert_eq!(hostfs::canonical("/a/b"), "/a/b");
    assert_eq!(hostfs::canonical("\\\\?\\C:\\x"), "C:\\x");
}

// --- source trees -----------------------------------------------------------

#[test]
fn accepts_ordinary_source_paths() {
    let cfg = config();
    let slot = Slot::Agent;
    assert!(resolve_path(&cfg, &slot, "src/lib.rs").is_ok());
    assert!(resolve_path(&cfg, &slot, "src/ui/app.js").is_ok());
}

#[test]
fn rejects_traversal_and_absolute_paths() {
    let cfg = config();
    let slot = Slot::Agent;
    for bad in [
        "../../../etc/passwd",
        "src/../../secrets",
        "C:/Windows/System32/x",
        "/etc/passwd",
    ] {
        assert!(
            resolve_path(&cfg, &slot, bad).is_err(),
            "should have rejected {bad}"
        );
    }
}

#[test]
fn rejects_build_time_files() {
    let cfg = config();
    let slot = Slot::Agent;
    // These run with the orchestrator's privileges during a host build.
    for bad in [
        "Cargo.toml",
        "cargo.toml",
        "build.rs",
        ".cargo/config.toml",
        "target/x.wasm",
    ] {
        assert!(
            resolve_path(&cfg, &slot, bad).is_err(),
            "should have rejected {bad}"
        );
    }
}

#[test]
fn what_decides_a_build_is_configured() {
    let mut cfg = config();
    cfg.devkit.protected_files = vec!["Makefile".to_string()];
    cfg.devkit.protected_dirs = vec!["ci".to_string(), "out".to_string()];
    assert!(resolve_path(&cfg, &Slot::Agent, "build.rs").is_ok());
    assert!(resolve_path(&cfg, &Slot::Agent, "src/makefile").is_err());
    assert_eq!(
        resolve_path(&cfg, &Slot::Agent, "OUT/x").unwrap_err(),
        "paths under ci or out are not editable"
    );
}

#[test]
fn tool_targets_validate_their_names() {
    assert!(target_to_slot(&ModTarget::Tool("good-name".into())).is_ok());
    assert!(target_to_slot(&ModTarget::Tool("../escape".into())).is_err());
    assert!(target_to_slot(&ModTarget::Gateway("Bad Name".into())).is_err());
}

#[test]
fn a_patch_needs_one_place() {
    assert_eq!(devkit::patch("a b c", "b", "x", "f").unwrap(), "a x c");
    assert!(devkit::patch("a b b", "b", "x", "f").is_err());
    assert!(devkit::patch("a", "b", "x", "f").is_err());
    assert!(devkit::patch("a", "", "x", "f").is_err());
}

#[test]
fn listings_are_sorted_and_skip_build_output() {
    assert!(devkit::is_passed_over("target"));
    assert!(!devkit::is_passed_over("src"));
    let files = devkit::list_files(vec!["src/lib.rs".to_string(), "a.md".to_string()]);
    assert_eq!(files, vec!["a.md", "src/lib.rs"]);
    assert_eq!(
        devkit::list_entry("/work/t", "/work/t/src/lib.rs"),
        Some("src/lib.rs".to_string())
    );
}

#[test]
fn new_tools_need_a_free_and_valid_name() {
    assert_eq!(devkit::new_tool("weather", false).unwrap(), Slot::tool("weather"));
    assert!(devkit::new_tool("weather", true).is_err());
    let report = devkit::new_tool("Bad Name", false).unwrap_err();
    assert!(!report.success);
}

#[test]
fn a_link_out_of_the_source_tree_is_noticed() {
    let root = Some("/work/tools/x".to_string());
    let full = "/work/tools/x/src/lib.rs";
    let at = |real: &str| Place::Reached(real.to_string(), 1);
    assert_eq!(
        devkit::confine(full, &root, &at("/work/tools/x/src")),
        Ok(full.to_string())
    );
    assert_eq!(
        devkit::confine(full, &root, &at("/etc")),
        Err("path escapes the component's source tree".to_string())
    );
    // What is yet to be created counts where the nearest directory above it is.
    assert!(devkit::confine("/work/tools/x/a/b/c", &root, &at("/work/tools/x")).is_ok());
    assert!(devkit::confine("/work/tools/x/a/b/c", &root, &at("/elsewhere")).is_err());
    // Without a tree there is nothing to follow.
    assert_eq!(devkit::confine(full, &None, &Place::Nowhere), Ok(full.to_string()));
    assert!(devkit::confine(full, &root, &Place::Nowhere).is_err());
}

#[test]
fn a_template_is_filled_in_on_one_line() {
    let text = "name = \"{{name}}\" # {{description}} {{name}}";
    assert_eq!(
        devkit::scaffold(text, "dice", "Rolls \"d6\"\r\nand \\d20"),
        "name = \"dice\" # Rolls \\\"d6\\\"  and \\\\d20 dice"
    );
}
