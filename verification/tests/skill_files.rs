use genesis::skills::{discover, enabled_ids, list_skills, parse, set_enabled, SkillFile};

#[test]
fn reads_frontmatter_and_body() {
    let skill = parse(
        "concise",
        "---\nname: Concise replies\ndescription: Short answers.\n---\n\nLead with the answer.\n",
    );
    assert_eq!(skill.id, "concise");
    assert_eq!(skill.name, "Concise replies");
    assert_eq!(skill.description, "Short answers.");
    assert_eq!(skill.instructions, "Lead with the answer.");
}

#[test]
fn a_file_without_frontmatter_still_loads() {
    let skill = parse("my-house-style", "Always use British spelling.");
    // The filename becomes a readable title rather than the skill vanishing.
    assert_eq!(skill.name, "my house style");
    assert_eq!(skill.instructions, "Always use British spelling.");
    assert!(skill.description.is_empty());
}

#[test]
fn handles_windows_line_endings() {
    let skill = parse("x", "---\r\nname: Windows\r\n---\r\n\r\nBody text.\r\n");
    assert_eq!(skill.name, "Windows");
    assert_eq!(skill.instructions, "Body text.");
}

#[test]
fn keys_are_matched_in_either_case_and_quotes_dropped() {
    let skill = parse("x", "---\nNAME: \"Quoted\"\nname:\nDescription: \"\"d\"\nother: y\n----\nB");
    assert_eq!(skill.name, "Quoted");
    assert_eq!(skill.description, "d");
    assert_eq!(skill.instructions, "B");
    // An unfinished block is body.
    let open = parse("x_y", "---\nname: n");
    assert_eq!(open.name, "x y");
    assert_eq!(open.instructions, "---\nname: n");
}

fn file(name: &str, body: Option<&str>) -> SkillFile {
    SkillFile { name: name.to_string(), body: body.map(|b| b.to_string()) }
}

#[test]
fn discovers_and_sorts_skills() {
    let found = discover(&vec![
        file("zed.md", Some("---\nname: Zed\n---\nz")),
        file("alpha.md", Some("---\nname: Alpha\n---\na")),
        // Not markdown: ignored.
        file("notes.txt", Some("ignore me")),
    ]);
    assert_eq!(
        found.iter().map(|s| s.name.as_str()).collect::<Vec<_>>(),
        vec!["Alpha", "Zed"]
    );
}

#[test]
fn names_sort_without_regard_to_case() {
    let found = discover(&vec![
        file("b.md", Some("---\nname: Ähre\n---\n")),
        file("a.md", Some("---\nname: beta\n---\n")),
        file("c.md", Some("---\nname: Alpha\n---\n")),
        file("d.md", None),
        file(".md", Some("hidden")),
    ]);
    assert_eq!(
        found.iter().map(|s| s.name.as_str()).collect::<Vec<_>>(),
        vec!["Alpha", "beta", "Ähre"]
    );
}

#[test]
fn missing_directory_is_not_an_error() {
    assert!(discover(&Vec::new()).is_empty());
}

#[test]
fn enabling_is_idempotent_and_reversible() {
    let once = set_enabled(None, "concise", true);
    let twice = set_enabled(Some(&once), "concise", true);
    assert_eq!(enabled_ids(Some(&twice)), vec!["concise"]);

    let both = set_enabled(Some(&twice), "careful", true);
    assert_eq!(enabled_ids(Some(&both)), vec!["careful", "concise"]);

    let one = set_enabled(Some(&both), "concise", false);
    assert_eq!(enabled_ids(Some(&one)), vec!["careful"]);
    assert_eq!(set_enabled(Some(&one), "careful", false), "");
    assert!(enabled_ids(Some("")).is_empty());
    assert_eq!(enabled_ids(Some(" a, ,b ")), vec!["a", "b"]);
}

#[test]
fn the_panel_shows_what_is_attached() {
    let skills = vec![parse("a", "A"), parse("b", "B")];
    let infos = list_skills(&skills, Some("b"));
    assert_eq!(infos.len(), 2);
    assert!(!infos[0].enabled);
    assert!(infos[1].enabled);
    assert_eq!(infos[1].instructions, "B");
}
