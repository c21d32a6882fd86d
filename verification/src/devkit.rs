//! The self-development kit.
//!
//! These are the operations the agent uses to change the running system: create
//! a tool, rewrite a file, patch a snippet. Every mutating call rebuilds the
//! affected slot immediately and returns the compiler's verdict inline, so the
//! model can fix its own mistakes inside a single turn instead of waiting for a
//! human to relay the error.
//!
//! Writes are constrained: paths cannot escape the slot's source tree, and the
//! files that decide what code runs at build time are off limits, because a
//! host-side build executes them.
use vstd::prelude::*;

use crate::config::{is_listed, lists, source_dir, Config};
use crate::hostfs::{Place, PlaceView};
use crate::order;
use crate::order::arranged;
use crate::paths;
use crate::paths::{absolute, below, has_drive, inside, part_views, parts, Part, PartView};
use crate::slot::{name_fault, slot_key, validate_component_name, Slot, SlotView};
use crate::text;
use crate::text::{
    begins, decimal, find_text, joined, occurs_at, outcome_of, replaced, texts, trimmed,
};
use crate::types::{CompileReport, ModTarget, ModTargetView};

verus! {

// --- what is changed --------------------------------------------------------

/// The slot a target names, or why it names none.
pub open spec fn target_slot(target: ModTargetView) -> Result<SlotView, Seq<char>> {
    match target {
        ModTargetView::AgentSelf => Ok(SlotView::Agent),
        ModTargetView::Tool(n) => match name_fault(n) {
            None => Ok(SlotView::Tool(n)),
            Some(e) => Err(e),
        },
        ModTargetView::Gateway(n) => match name_fault(n) {
            None => Ok(SlotView::Gateway(n)),
            Some(e) => Err(e),
        },
    }
}

/// The slot a target names.
pub fn target_to_slot(target: &ModTarget) -> (r: Result<Slot, String>)
    ensures
        match r {
            Ok(slot) => target_slot(target@) == Ok::<SlotView, Seq<char>>(slot@),
            Err(e) => target_slot(target@) == Err::<SlotView, Seq<char>>(e@),
        },
{
    match target {
        ModTarget::AgentSelf => Ok(Slot::Agent),
        ModTarget::Tool(name) => match validate_component_name(name.as_str()) {
            Ok(()) => Ok(Slot::tool(name.as_str())),
            Err(e) => Err(e),
        },
        ModTarget::Gateway(name) => match validate_component_name(name.as_str()) {
            Ok(()) => Ok(Slot::gateway(name.as_str())),
            Err(e) => Err(e),
        },
    }
}

// --- where a file is --------------------------------------------------------

/// Whether a path only ever goes down: it has neither a root nor a step up.
pub open spec fn goes_down(items: Seq<PartView>) -> bool {
    forall|i: int|
        0 <= i < items.len() ==> (#[trigger] items[i] is Name) || (items[i] is Here)
}

/// The last name among the parts of a path.
pub open spec fn final_name(items: Seq<PartView>) -> Option<Seq<char>>
    decreases items.len(),
{
    if items.len() == 0 {
        None
    } else {
        match items.last() {
            PartView::Name(n) => Some(n),
            _ => final_name(items.drop_last()),
        }
    }
}

/// Whether some name among the parts is that of a protected directory.
pub open spec fn through_any(items: Seq<PartView>, dirs: Seq<Seq<char>>) -> bool {
    exists|i: int|
        0 <= i < items.len() && (#[trigger] items[i] matches PartView::Name(n) && lists(dirs, n))
}

/// A path as the guest wrote it, with the separators of either kind alike.
pub open spec fn given_path(relative: Seq<char>) -> Seq<char> {
    replaced(trimmed(relative), "\\"@, "/"@)
}

/// Where a guest's path leads inside a source tree, before the disk is asked,
/// or why it leads nowhere.
///
/// The protected files and directories influence what runs during a build rather
/// than at runtime. Editing one would let guest-authored code execute with the
/// harness's privileges the next time a build runs.
pub open spec fn source_path(
    root: Seq<char>,
    files: Seq<Seq<char>>,
    dirs: Seq<Seq<char>>,
    relative: Seq<char>,
) -> Result<Seq<char>, Seq<char>> {
    let path = given_path(relative);
    let items = parts(path);
    if path.len() == 0 {
        Err("path is empty"@)
    } else if absolute(path) {
        Err("path must be relative to the component's source"@)
    } else if !goes_down(items) || has_drive(path) {
        Err("path must not contain '..' or a drive prefix"@)
    } else if final_name(items) is Some && lists(files, final_name(items)->0) {
        Err(
            final_name(items)->0
                + " decides what runs during a build, so it is not editable from here — ask a human to change dependencies"@,
        )
    } else if through_any(items, dirs) {
        Err("paths under "@ + joined(dirs, " or "@) + " are not editable"@)
    } else {
        Ok(below(root, path))
    }
}

fn only_down(items: &Vec<Part>) -> (r: bool)
    ensures
        r == goes_down(part_views(items@)),
{
    for i in 0..items.len()
        invariant
            forall|j: int|
                0 <= j < i ==> (#[trigger] part_views(items@)[j] is Name) || (part_views(
                    items@,
                )[j] is Here),
    {
        match &items[i] {
            Part::Name(_) => {
                assert(part_views(items@)[i as int] is Name);
            },
            Part::Here => {
                assert(part_views(items@)[i as int] is Here);
            },
            _ => {
                assert(!(part_views(items@)[i as int] is Name));
                return false;
            },
        }
    }
    true
}

fn last_of(items: &Vec<Part>) -> (r: Option<String>)
    ensures
        text::text_of(r) == final_name(part_views(items@)),
{
    let ghost all = part_views(items@);
    let mut i: usize = items.len();
    assert(all.take(i as int) =~= all);
    while i > 0
        invariant
            i <= items@.len(),
            all == part_views(items@),
            final_name(all.take(i as int)) == final_name(all),
        decreases i,
    {
        i = i - 1;
        proof {
            assert(all.take(i + 1).drop_last() =~= all.take(i as int));
            assert(all.take(i + 1).last() == items@[i as int]@);
        }
        if let Part::Name(n) = &items[i] {
            return Some(n.clone());
        }
    }
    None
}

fn enters_any(items: &Vec<Part>, dirs: &Vec<String>) -> (r: bool)
    ensures
        r == through_any(part_views(items@), texts(dirs@)),
{
    for i in 0..items.len()
        invariant
            forall|j: int|
                0 <= j < i ==> !(#[trigger] part_views(items@)[j] matches PartView::Name(n)
                    && lists(texts(dirs@), n)),
    {
        if let Part::Name(n) = &items[i] {
            if is_listed(dirs, n.as_str()) {
                assert(part_views(items@)[i as int] == PartView::Name(n@));
                return true;
            }
        }
        assert(part_views(items@)[i as int] == items@[i as int]@);
    }
    false
}

/// Resolves a guest-supplied relative path inside a slot's source tree.
///
/// Rejects anything that would escape the tree or touch a build-time file.
pub fn resolve_path(cfg: &Config, slot: &Slot, relative: &str) -> (r: Result<String, String>)
    ensures
        outcome_of(r) == source_path(
            source_dir(cfg.paths, slot@),
            texts(cfg.devkit.protected_files@),
            texts(cfg.devkit.protected_dirs@),
            relative@,
        ),
{
    proof {
        reveal_strlit("\\");
    }
    let path = text::replace(text::trim(relative).as_str(), "\\", "/");
    if text::is_empty(path.as_str()) {
        return Err("path is empty".to_owned());
    }
    if paths::is_absolute(path.as_str()) {
        return Err("path must be relative to the component's source".to_owned());
    }
    let items = paths::parse(path.as_str());
    // Traversal is rejected by inspecting parts rather than by string
    // matching, which is easy to slip past.
    if !only_down(&items) || paths::starts_with_drive(path.as_str()) {
        return Err("path must not contain '..' or a drive prefix".to_owned());
    }
    if let Some(last) = last_of(&items) {
        if is_listed(&cfg.devkit.protected_files, last.as_str()) {
            return Err(
                last.concat(
                    " decides what runs during a build, so it is not editable from here — ask a human to change dependencies",
                ),
            );
        }
    }
    if enters_any(&items, &cfg.devkit.protected_dirs) {
        return Err(
            "paths under ".to_owned().concat(
                text::join(&cfg.devkit.protected_dirs, " or ").as_str(),
            ).concat(" are not editable"),
        );
    }
    Ok(paths::join(cfg.slot_source_dir(slot).as_str(), path.as_str()))
}

/// A resolved path, if it is still inside the source tree once symlinks are
/// followed: the path, or the nearest above it that exists, leads inside it. Where
/// the tree is not on disk there is nothing to follow.
pub open spec fn confined(
    full: Seq<char>,
    root: Option<Seq<char>>,
    place: PlaceView,
) -> Result<Seq<char>, Seq<char>> {
    match root {
        Some(r) => if place matches PlaceView::Reached(base, _) && inside(base, r) {
            Ok(full)
        } else {
            Err("path escapes the component's source tree"@)
        },
        None => Ok(full),
    }
}

/// Belt and braces: even after the checks on its parts, confirms that a path
/// is still inside the tree once symlinks are resolved.
pub fn confine(full: &str, root: &Option<String>, place: &Place) -> (r: Result<String, String>)
    ensures
        outcome_of(r) == confined(full@, text::text_of(*root), place@),
{
    if let Some(r) = root {
        let stays = match place {
            Place::Reached(base, _) => paths::starts_with(base.as_str(), r.as_str()),
            Place::Nowhere => false,
        };
        if !stays {
            return Err("path escapes the component's source tree".to_owned());
        }
    }
    Ok(full.to_owned())
}

// --- reports ----------------------------------------------------------------

/// Whether a report says that nothing was built, and why.
pub open spec fn error_report(r: CompileReport, slot: Seq<char>, detail: Seq<char>) -> bool {
    &&& !r.success
    &&& r.slot@ == slot
    &&& r.revision is None
    &&& r.stderr@ == Seq::<char>::empty()
    &&& r.duration_ms == 0
    &&& !r.pending_swap
    &&& r.detail@ == detail
}

/// A report that nothing was built, and why.
pub fn report_error(slot: &str, detail: &str) -> (r: CompileReport)
    ensures
        error_report(r, slot@, detail@),
{
    CompileReport {
        success: false,
        slot: slot.to_owned(),
        revision: None,
        stderr: String::new(),
        duration_ms: 0,
        pending_swap: false,
        detail: detail.to_owned(),
    }
}

// --- new tools --------------------------------------------------------------

/// Why a tool of this name is not created, if it is not.
pub open spec fn new_tool_fault(name: Seq<char>, exists: bool) -> Option<Seq<char>> {
    match name_fault(name) {
        Some(e) => Some(e),
        None => if exists {
            Some(
                "a tool named '"@ + name
                    + "' already exists; edit it with write_code instead"@,
            )
        } else {
            None
        },
    }
}

/// Decides whether a tool of this name can be created. `exists` says whether
/// its source directory is there already.
pub fn new_tool(name: &str, exists: bool) -> (r: Result<Slot, CompileReport>)
    ensures
        match r {
            Ok(slot) => new_tool_fault(name@, exists) is None && slot@ == SlotView::Tool(name@),
            Err(report) => new_tool_fault(name@, exists) is Some && error_report(
                report,
                "tool/"@ + name@,
                new_tool_fault(name@, exists)->0,
            ),
        },
{
    let label = "tool/".to_owned().concat(name);
    if let Err(e) = validate_component_name(name) {
        return Err(report_error(label.as_str(), e.as_str()));
    }
    if exists {
        return Err(
            report_error(
                label.as_str(),
                "a tool named '".to_owned().concat(name).concat(
                    "' already exists; edit it with write_code instead",
                ).as_str(),
            ),
        );
    }
    Ok(Slot::tool(name))
}

/// A description kept on one line and safe inside a string literal.
pub open spec fn literal_safe(description: Seq<char>) -> Seq<char> {
    replaced(
        replaced(
            replaced(replaced(description, "\\"@, "\\\\"@), "\""@, "\\\""@),
            "\n"@,
            " "@,
        ),
        "\r"@,
        " "@,
    )
}

/// A template with the tool's name and description put in.
pub open spec fn filled(
    template: Seq<char>,
    name: Seq<char>,
    description: Seq<char>,
) -> Seq<char> {
    replaced(
        replaced(template, "{{name}}"@, name),
        "{{description}}"@,
        literal_safe(description),
    )
}

/// Fills a template in with the tool's name and description.
pub fn scaffold(template: &str, name: &str, description: &str) -> (r: String)
    ensures
        r@ == filled(template@, name@, description@),
{
    proof {
        reveal_strlit("\\");
        reveal_strlit("\"");
        reveal_strlit("\n");
        reveal_strlit("\r");
        reveal_strlit("{{name}}");
        reveal_strlit("{{description}}");
    }
    let a = text::replace(description, "\\", "\\\\");
    let b = text::replace(a.as_str(), "\"", "\\\"");
    let c = text::replace(b.as_str(), "\n", " ");
    let safe = text::replace(c.as_str(), "\r", " ");
    let named = text::replace(template, "{{name}}", name);
    text::replace(named.as_str(), "{{description}}", safe.as_str())
}

// --- patches ----------------------------------------------------------------

/// How often a text occurs in another, counting from the left and never
/// overlapping. The empty text stands before and after every character.
pub open spec fn occurrences(s: Seq<char>, part: Seq<char>) -> nat
    decreases s.len(),
{
    if part.len() == 0 {
        s.len() + 1
    } else if s.len() == 0 {
        0
    } else if begins(s, part) {
        1 + occurrences(s.skip(part.len() as int), part)
    } else {
        occurrences(s.skip(1), part)
    }
}

fn count_occurrences(chars: &Vec<char>, part: &Vec<char>) -> (r: usize)
    requires
        part@.len() > 0,
    ensures
        r == occurrences(chars@, part@),
{
    let mut i: usize = 0;
    let mut n: usize = 0;
    assert(chars@.skip(0) =~= chars@);
    while i < chars.len()
        invariant
            i <= chars@.len(),
            part@.len() > 0,
            n <= i,
            n + occurrences(chars@.skip(i as int), part@) == occurrences(chars@, part@),
        decreases chars@.len() - i,
    {
        let ghost rest = chars@.skip(i as int);
        if text::stands_at(chars, part, i) {
            proof {
                assert(rest.subrange(0, part@.len() as int) =~= chars@.subrange(
                    i as int,
                    i + part@.len(),
                ));
                assert(rest.skip(part@.len() as int) =~= chars@.skip(i + part@.len()));
            }
            i = i + part.len();
            n = n + 1;
        } else {
            proof {
                if begins(rest, part@) {
                    assert(rest.subrange(0, part@.len() as int) =~= chars@.subrange(
                        i as int,
                        i + part@.len(),
                    ));
                }
                assert(rest.skip(1) =~= chars@.skip(i + 1));
            }
            i = i + 1;
        }
    }
    assert(chars@.skip(i as int) =~= Seq::<char>::empty());
    n
}

/// A text with the one occurrence of a snippet replaced, or why it is not. An
/// ambiguous patch would silently change the wrong line, so the snippet has to
/// be unique.
pub open spec fn patched(
    current: Seq<char>,
    old_text: Seq<char>,
    new_text: Seq<char>,
    path: Seq<char>,
) -> Result<Seq<char>, Seq<char>> {
    let n = occurrences(current, old_text);
    if n == 0 {
        Err("the text to replace does not appear in "@ + path)
    } else if n > 1 {
        Err(
            "the text to replace appears "@ + decimal(n) + " times in "@ + path
                + "; include more surrounding context to make it unique"@,
        )
    } else {
        let i = find_text(current, old_text)->0;
        Ok(current.take(i) + new_text + current.skip(i + old_text.len()))
    }
}

proof fn lemma_occurs(s: Seq<char>, part: Seq<char>)
    requires
        part.len() > 0,
    ensures
        occurrences(s, part) > 0 ==> exists|i: int| occurs_at(s, part, i),
    decreases s.len(),
{
    if s.len() > 0 && occurrences(s, part) > 0 {
        if begins(s, part) {
            assert(occurs_at(s, part, 0));
        } else {
            lemma_occurs(s.skip(1), part);
            let i = choose|i: int| occurs_at(s.skip(1), part, i);
            assert(s.skip(1).subrange(i, i + part.len()) =~= s.subrange(i + 1, i + 1 + part.len()));
            assert(occurs_at(s, part, i + 1));
        }
    }
}

/// Replaces the one occurrence of a snippet in a file's text.
pub fn patch(current: &str, old_text: &str, new_text: &str, path: &str) -> (r: Result<
    String,
    String,
>)
    ensures
        outcome_of(r) == patched(current@, old_text@, new_text@, path@),
{
    let chars = text::chars_of(current);
    let part = text::chars_of(old_text);
    let n: u128 = if part.len() == 0 {
        chars.len() as u128 + 1
    } else {
        count_occurrences(&chars, &part) as u128
    };
    if n == 0 {
        return Err("the text to replace does not appear in ".to_owned().concat(path));
    }
    if n > 1 {
        return Err(
            "the text to replace appears ".to_owned().concat(text::wide_number(n).as_str()).concat(
                " times in ",
            ).concat(path).concat("; include more surrounding context to make it unique"),
        );
    }
    match text::find_from(&chars, &part, 0) {
        Some(i) => {
            proof {
                text::lemma_find_text(current@, old_text@, i as int);
            }
            let len: usize = chars.len();
            let size: usize = part.len();
            assert(i + size <= len);
            let head = text::slice_of(&chars, 0, i);
            let tail = text::slice_of(&chars, i + size, len);
            assert(head@ =~= current@.take(i as int));
            assert(tail@ =~= current@.skip(i + old_text@.len()));
            Ok(head.concat(new_text).concat(tail.as_str()))
        },
        None => {
            proof {
                if part@.len() == 0 {
                    assert(current@.subrange(0, 0) =~= old_text@);
                    assert(occurs_at(current@, old_text@, 0));
                } else {
                    lemma_occurs(current@, old_text@);
                    let i = choose|i: int| occurs_at(current@, old_text@, i);
                    assert(occurs_at(current@, old_text@, i));
                }
            }
            Err(String::new())
        },
    }
}

// --- files ------------------------------------------------------------------

/// Whether a directory is build output or version control, which is neither
/// listed nor copied.
pub open spec fn passed_over(name: Seq<char>) -> bool {
    name == "target"@ || name == ".git"@
}

/// Whether a directory is build output or version control, which is neither
/// listed nor copied.
pub fn is_passed_over(name: &str) -> (r: bool)
    ensures
        r == passed_over(name@),
{
    text::same(name, "target") || text::same(name, ".git")
}

/// A file of a source tree as it is listed: relative to the tree, with forward
/// slashes.
pub open spec fn listed_as(root: Seq<char>, path: Seq<char>) -> Option<Seq<char>> {
    match paths::relative(path, root) {
        Some(items) => Some(replaced(paths::written(items), "\\"@, "/"@)),
        None => None,
    }
}

/// A file of a source tree as it is listed.
pub fn list_entry(root: &str, path: &str) -> (r: Option<String>)
    ensures
        text::text_of(r) == listed_as(root@, path@),
{
    match paths::strip_prefix(path, root) {
        Some(items) => {
            proof {
                reveal_strlit("\\");
            }
            Some(text::replace(paths::write(&items).as_str(), "\\", "/"))
        },
        None => None,
    }
}

/// The files of a source tree, in order.
pub fn list_files(files: Vec<String>) -> (r: Vec<String>)
    ensures
        texts(r@) == arranged(texts(files@)),
{
    let mut out = files;
    order::sort(&mut out);
    out
}

/// The slot and the path a change goes to, or the report that says why it goes
/// nowhere. `exists` says whether the slot has a source tree on disk.
pub open spec fn located(
    cfg: Config,
    target: ModTargetView,
    exists: bool,
    path: Seq<char>,
) -> Result<(SlotView, Seq<char>), (Seq<char>, Seq<char>)> {
    match target_slot(target) {
        Err(e) => Err(("unknown"@, e)),
        Ok(slot) => if !exists {
            Err((slot_key(slot), slot_key(slot) + " has no source tree on disk"@))
        } else {
            match source_path(
                source_dir(cfg.paths, slot),
                texts(cfg.devkit.protected_files@),
                texts(cfg.devkit.protected_dirs@),
                path,
            ) {
                Ok(full) => Ok((slot, full)),
                Err(e) => Err((slot_key(slot), e)),
            }
        },
    }
}

/// Finds the slot and the path a change goes to.
pub fn locate(cfg: &Config, target: &ModTarget, exists: bool, path: &str) -> (r: Result<
    (Slot, String),
    CompileReport,
>)
    ensures
        match r {
            Ok((slot, full)) => located(*cfg, target@, exists, path@) == Ok::<
                (SlotView, Seq<char>),
                (Seq<char>, Seq<char>),
            >((slot@, full@)),
            Err(report) => located(*cfg, target@, exists, path@) is Err && error_report(
                report,
                (located(*cfg, target@, exists, path@)->Err_0).0,
                (located(*cfg, target@, exists, path@)->Err_0).1,
            ),
        },
{
    let slot = match target_to_slot(target) {
        Ok(s) => s,
        Err(e) => return Err(report_error("unknown", e.as_str())),
    };
    let key = slot.key();
    if !exists {
        return Err(
            report_error(
                key.as_str(),
                key.clone().concat(" has no source tree on disk").as_str(),
            ),
        );
    }
    match resolve_path(cfg, &slot, path) {
        Ok(full) => Ok((slot, full)),
        Err(e) => Err(report_error(key.as_str(), e.as_str())),
    }
}

// --- laws -------------------------------------------------------------------

/// An accepted path lies inside the source tree, by names alone: it does not go
/// up, does not end in a protected file, and does not pass through a protected
/// directory.
pub proof fn law_accepted_paths_stay_in_the_tree(
    root: Seq<char>,
    files: Seq<Seq<char>>,
    dirs: Seq<Seq<char>>,
    relative: Seq<char>,
)
    requires
        root.len() > 0,
    ensures
        source_path(root, files, dirs, relative) matches Ok(full) ==> {
            &&& paths::inside(full, root)
            &&& paths::relative(full, root) == Some(
                paths::steps(text::pieces(given_path(relative), '/')),
            )
            &&& forall|i: int|
                0 <= i < paths::relative(full, root)->0.len() ==> #[trigger] paths::relative(
                    full,
                    root,
                )->0[i] is Name
            &&& !through_any(paths::relative(full, root)->0, dirs)
            &&& final_name(paths::relative(full, root)->0) matches Some(n) ==> !lists(files, n)
        },
{
    if source_path(root, files, dirs, relative) is Ok {
        let path = given_path(relative);
        let full = below(root, path);
        let items = parts(path);
        let names = paths::steps(text::pieces(path, '/'));
        paths::law_below_is_inside(root, path);
        let k = paths::lead(path).len() as int;
        assert forall|i: int| 0 <= i < names.len() implies #[trigger] names[i] is Name by {
            assert(items[k + i] == names[i]);
            paths::lemma_steps_hold_no_here(text::pieces(path, '/'), i);
        }
        if through_any(names, dirs) {
            let j = choose|j: int|
                0 <= j < names.len() && (#[trigger] names[j] matches PartView::Name(n) && lists(
                    dirs,
                    n,
                ));
            assert(items[k + j] == names[j]);
        }
        lemma_final_name(paths::lead(path), names);
    }
}

/// The last name of a list is that of its end, where that holds a name.
proof fn lemma_final_name(a: Seq<PartView>, b: Seq<PartView>)
    ensures
        final_name(b) is Some ==> final_name(a + b) == final_name(b),
    decreases b.len(),
{
    if b.len() > 0 {
        assert((a + b).last() == b.last());
        assert((a + b).drop_last() =~= a + b.drop_last());
        lemma_final_name(a, b.drop_last());
    }
}

/// A patch changes one place and leaves everything before and after it.
pub proof fn law_a_patch_changes_one_place(
    current: Seq<char>,
    old_text: Seq<char>,
    new_text: Seq<char>,
    path: Seq<char>,
)
    requires
        old_text.len() > 0,
    ensures
        patched(current, old_text, new_text, path) matches Ok(after) ==> exists|i: int|
            #![trigger occurs_at(current, old_text, i)]
            occurs_at(current, old_text, i) && after == current.take(i) + new_text + current.skip(
                i + old_text.len(),
            ),
{
    if patched(current, old_text, new_text, path) is Ok {
        lemma_occurs(current, old_text);
        let k = choose|i: int| occurs_at(current, old_text, i);
        lemma_first(current, old_text, k);
        let i = find_text(current, old_text)->0;
        assert(occurs_at(current, old_text, i));
    }
}

proof fn lemma_first(s: Seq<char>, part: Seq<char>, k: int)
    requires
        occurs_at(s, part, k),
    ensures
        find_text(s, part) is Some,
        occurs_at(s, part, find_text(s, part)->0),
    decreases k,
{
    if exists|j: int| 0 <= j < k && occurs_at(s, part, j) {
        let j = choose|j: int| 0 <= j < k && occurs_at(s, part, j);
        lemma_first(s, part, j);
    } else {
        text::lemma_find_text(s, part, k);
    }
}

/// A patch is made where the text to replace stands in one place, and there; it is not
/// made where the text does not stand, nor where it stands in two places.
pub proof fn law_a_patch_needs_one_place(
    current: Seq<char>,
    old_text: Seq<char>,
    new_text: Seq<char>,
    path: Seq<char>,
    i: int,
    j: int,
)
    requires
        old_text.len() > 0,
    ensures
        occurs_at(current, old_text, i) && (forall|k: int|
            #[trigger] occurs_at(current, old_text, k) ==> k == i) ==> patched(
            current,
            old_text,
            new_text,
            path,
        ) == Ok::<Seq<char>, Seq<char>>(
            current.take(i) + new_text + current.skip(i + old_text.len()),
        ),
        occurs_at(current, old_text, i) && occurs_at(current, old_text, j) && i + old_text.len()
            <= j ==> (patched(current, old_text, new_text, path) matches Err(e) && text::occurs(
            e,
            path,
        )),
        !text::occurs(current, old_text) ==> (patched(
            current,
            old_text,
            new_text,
            path,
        ) matches Err(e) && text::ends(e, path)),
{
    let n = occurrences(current, old_text);
    if occurs_at(current, old_text, i) && (forall|k: int|
        #[trigger] occurs_at(current, old_text, k) ==> k == i) {
        lemma_occurs_once(current, old_text, i);
        text::lemma_find_text(current, old_text, i);
    }
    if occurs_at(current, old_text, i) && occurs_at(current, old_text, j) && i + old_text.len()
        <= j {
        lemma_occurs_twice(current, old_text, i, j);
        let a = "the text to replace appears "@ + decimal(n) + " times in "@;
        text::lemma_occurs_between(
            a,
            path,
            "; include more surrounding context to make it unique"@,
        );
    }
    if !text::occurs(current, old_text) {
        lemma_occurs(current, old_text);
        let e = "the text to replace does not appear in "@ + path;
        assert(e.subrange(e.len() - path.len(), e.len() as int) =~= path);
    }
}

proof fn lemma_occurs_further(s: Seq<char>, part: Seq<char>, by: int, i: int)
    requires
        0 <= by <= s.len(),
        0 <= i,
    ensures
        occurs_at(s.skip(by), part, i) == occurs_at(s, part, by + i),
{
    if i + part.len() <= s.len() - by {
        assert(s.skip(by).subrange(i, i + part.len()) =~= s.subrange(by + i, by + i + part.len()));
    }
}

proof fn lemma_occurs_some(s: Seq<char>, part: Seq<char>, i: int)
    requires
        part.len() > 0,
        occurs_at(s, part, i),
    ensures
        occurrences(s, part) > 0,
    decreases s.len(),
{
    if !begins(s, part) {
        lemma_occurs_further(s, part, 1, i - 1);
        lemma_occurs_some(s.skip(1), part, i - 1);
    }
}

proof fn lemma_occurs_twice(s: Seq<char>, part: Seq<char>, i: int, j: int)
    requires
        part.len() > 0,
        occurs_at(s, part, i),
        occurs_at(s, part, j),
        i + part.len() <= j,
    ensures
        occurrences(s, part) > 1,
    decreases s.len(),
{
    if begins(s, part) {
        let k = part.len() as int;
        lemma_occurs_further(s, part, k, j - k);
        lemma_occurs_some(s.skip(k), part, j - k);
    } else {
        lemma_occurs_further(s, part, 1, i - 1);
        lemma_occurs_further(s, part, 1, j - 1);
        lemma_occurs_twice(s.skip(1), part, i - 1, j - 1);
    }
}

proof fn lemma_occurs_once(s: Seq<char>, part: Seq<char>, i: int)
    requires
        part.len() > 0,
        occurs_at(s, part, i),
        forall|k: int| #[trigger] occurs_at(s, part, k) ==> k == i,
    ensures
        occurrences(s, part) == 1,
    decreases s.len(),
{
    let by = if begins(s, part) {
        part.len() as int
    } else {
        1
    };
    let t = s.skip(by);
    if begins(s, part) {
        assert(i == 0);
        lemma_occurs(t, part);
        if occurrences(t, part) > 0 {
            let k = choose|k: int| occurs_at(t, part, k);
            lemma_occurs_further(s, part, by, k);
            assert(occurs_at(s, part, by + k));
        }
    } else {
        lemma_occurs_further(s, part, 1, i - 1);
        assert forall|k: int| #[trigger] occurs_at(t, part, k) implies k == i - 1 by {
            lemma_occurs_further(s, part, 1, k);
            assert(occurs_at(s, part, 1 + k));
        }
        lemma_occurs_once(t, part, i - 1);
    }
}

/// A target stands for the slot of its own kind and name, as long as the name is one a
/// component may have.
pub proof fn law_a_target_is_its_own_slot(name: Seq<char>)
    ensures
        target_slot(ModTargetView::AgentSelf) == Ok::<SlotView, Seq<char>>(SlotView::Agent),
        name_fault(name) is None ==> target_slot(ModTargetView::Tool(name)) == Ok::<
            SlotView,
            Seq<char>,
        >(SlotView::Tool(name)) && target_slot(ModTargetView::Gateway(name)) == Ok::<
            SlotView,
            Seq<char>,
        >(SlotView::Gateway(name)),
        name_fault(name) matches Some(e) ==> target_slot(ModTargetView::Tool(name)) == Err::<
            SlotView,
            Seq<char>,
        >(e) && target_slot(ModTargetView::Gateway(name)) == Err::<SlotView, Seq<char>>(e),
{
}

/// A path is refused only for a reason: it is empty, absolute, leads up, names a drive,
/// or is protected. Any other is accepted, as the path below the tree.
pub proof fn law_a_path_is_refused_only_for_a_reason(
    root: Seq<char>,
    files: Seq<Seq<char>>,
    dirs: Seq<Seq<char>>,
    relative: Seq<char>,
)
    ensures
        ({
            let path = given_path(relative);
            let items = parts(path);
            let leads_up = exists|i: int|
                0 <= i < items.len() && (#[trigger] items[i] is Up || items[i] is Root);
            &&& source_path(root, files, dirs, relative) is Err ==> path.len() == 0 || absolute(
                path,
            ) || leads_up || has_drive(path) || (final_name(items) matches Some(n) && lists(
                files,
                n,
            )) || through_any(items, dirs)
            &&& source_path(root, files, dirs, relative) matches Ok(full) ==> path.len() > 0
                && !absolute(path) && !leads_up && !has_drive(path) && text::ends(full, path)
        }),
{
    let path = given_path(relative);
    let items = parts(path);
    if !goes_down(items) {
        let i = choose|i: int|
            0 <= i < items.len() && !((#[trigger] items[i] is Name) || (items[i] is Here));
        assert(items[i] is Up || items[i] is Root);
    }
    if source_path(root, files, dirs, relative) is Ok {
        let full = below(root, path);
        assert(full.subrange(full.len() - path.len(), full.len() as int) =~= path);
        assert forall|i: int| 0 <= i < items.len() implies !(#[trigger] items[i] is Up) && !(
        items[i] is Root) by {
            assert((items[i] is Name) || (items[i] is Here));
        }
    }
}

/// A file is looked for in the tree of the slot it is asked of, and a fault says which
/// slot it is about.
pub proof fn law_a_file_is_located_in_its_own_tree(
    cfg: Config,
    target: ModTargetView,
    exists: bool,
    path: Seq<char>,
)
    requires
        forall|s: SlotView| (#[trigger] source_dir(cfg.paths, s)).len() > 0,
    ensures
        match located(cfg, target, exists, path) {
            Ok((slot, full)) => exists && target_slot(target) == Ok::<SlotView, Seq<char>>(slot)
                && inside(full, source_dir(cfg.paths, slot)),
            Err((about, why)) => match target_slot(target) {
                Ok(slot) => about == slot_key(slot),
                Err(e) => why == e,
            },
        },
{
    if let Ok((slot, full)) = located(cfg, target, exists, path) {
        law_accepted_paths_stay_in_the_tree(
            source_dir(cfg.paths, slot),
            texts(cfg.devkit.protected_files@),
            texts(cfg.devkit.protected_dirs@),
            path,
        );
    }
}

/// A tool is made only under a name it may have and that no tool has.
pub proof fn law_a_new_tool_needs_a_free_name(name: Seq<char>, exists: bool)
    ensures
        new_tool_fault(name, exists) is None <==> name_fault(name) is None && !exists,
        name_fault(name) is Some ==> new_tool_fault(name, exists) == name_fault(name),
        name_fault(name) is None && exists ==> (new_tool_fault(name, exists) matches Some(e)
            && text::occurs(e, name)),
{
    text::lemma_occurs_between(
        "a tool named '"@,
        name,
        "' already exists; edit it with write_code instead"@,
    );
}

/// A description goes into a string literal character by character: a quote and a
/// backslash with a backslash before it, a line break as a space, anything else as it
/// is.
pub proof fn law_descriptions_go_in_by_character(a: Seq<char>, b: Seq<char>, c: char)
    ensures
        literal_safe(a + b) == literal_safe(a) + literal_safe(b),
        literal_safe(seq![c]) == if c == '\\' {
            seq!['\\', '\\']
        } else if c == '"' {
            seq!['\\', '"']
        } else if c == '\n' || c == '\r' {
            seq![' ']
        } else {
            seq![c]
        },
{
    reveal_strlit("\\");
    reveal_strlit("\\\\");
    reveal_strlit("\"");
    reveal_strlit("\\\"");
    reveal_strlit("\n");
    reveal_strlit("\r");
    reveal_strlit(" ");
    assert("\\"@ =~= seq!['\\']);
    assert("\\\\"@ =~= seq!['\\', '\\']);
    assert("\""@ =~= seq!['"']);
    assert("\\\""@ =~= seq!['\\', '"']);
    assert("\n"@ =~= seq!['\n']);
    assert("\r"@ =~= seq!['\r']);
    assert(" "@ =~= seq![' ']);
    lemma_four_replacements(a, b);
    let one = seq![c];
    text::law_replacing_goes_by_character(one, one, '\\', "\\\\"@);
    let r1 = replaced(one, "\\"@, "\\\\"@);
    if c == '\\' {
        assert(r1 == seq!['\\', '\\']);
        assert(!r1.contains('"') && !r1.contains('\n') && !r1.contains('\r'));
        text::law_replacing_goes_by_character(r1, r1, '"', "\\\""@);
        text::law_replacing_goes_by_character(r1, r1, '\n', " "@);
        text::law_replacing_goes_by_character(r1, r1, '\r', " "@);
    } else {
        assert(!one.contains('\\'));
        assert(r1 == one);
        text::law_replacing_goes_by_character(one, one, '"', "\\\""@);
        let r2 = replaced(r1, "\""@, "\\\""@);
        if c == '"' {
            assert(r2 == seq!['\\', '"']);
            assert(!r2.contains('\n') && !r2.contains('\r'));
            text::law_replacing_goes_by_character(r2, r2, '\n', " "@);
            text::law_replacing_goes_by_character(r2, r2, '\r', " "@);
        } else {
            assert(!one.contains('"'));
            text::law_replacing_goes_by_character(one, one, '\n', " "@);
            let r3 = replaced(r2, "\n"@, " "@);
            if c == '\n' {
                assert(r3 == seq![' ']);
                assert(!r3.contains('\r'));
                text::law_replacing_goes_by_character(r3, r3, '\r', " "@);
            } else {
                assert(!one.contains('\n'));
                text::law_replacing_goes_by_character(one, one, '\r', " "@);
                if c != '\r' {
                    assert(!one.contains('\r'));
                }
            }
        }
    }
}

proof fn lemma_four_replacements(a: Seq<char>, b: Seq<char>)
    requires
        "\\"@ == seq!['\\'],
        "\""@ == seq!['"'],
        "\n"@ == seq!['\n'],
        "\r"@ == seq!['\r'],
    ensures
        literal_safe(a + b) == literal_safe(a) + literal_safe(b),
{
    text::law_replacing_goes_by_character(a, b, '\\', "\\\\"@);
    let a1 = replaced(a, "\\"@, "\\\\"@);
    let b1 = replaced(b, "\\"@, "\\\\"@);
    text::law_replacing_goes_by_character(a1, b1, '"', "\\\""@);
    let a2 = replaced(a1, "\""@, "\\\""@);
    let b2 = replaced(b1, "\""@, "\\\""@);
    text::law_replacing_goes_by_character(a2, b2, '\n', " "@);
    let a3 = replaced(a2, "\n"@, " "@);
    let b3 = replaced(b2, "\n"@, " "@);
    text::law_replacing_goes_by_character(a3, b3, '\r', " "@);
}

/// A template is filled in where it says so: the name in the name's place and the
/// description, made safe, in the description's, and the rest stays as it is.
pub proof fn law_a_template_is_filled_in_its_places(
    a: Seq<char>,
    m: Seq<char>,
    b: Seq<char>,
    name: Seq<char>,
    description: Seq<char>,
)
    requires
        !a.contains('{'),
        !m.contains('{'),
        !b.contains('{'),
        !name.contains('{'),
    ensures
        filled(a + "{{name}}"@ + m + "{{description}}"@ + b, name, description) == a + name + m
            + literal_safe(description) + b,
        filled(a, name, description) == a,
{
    reveal_strlit("{{name}}");
    reveal_strlit("{{description}}");
    let n = "{{name}}"@;
    let d = "{{description}}"@;
    assert(n.len() == 8 && n[0] == '{' && n[1] == '{' && n[2] == 'n');
    assert(d.len() == 15 && d[0] == '{' && d[1] == '{' && d[2] == 'd');
    let safe = literal_safe(description);
    let rest = m + d + b;
    assert(a + n + m + d + b =~= a + n + rest);
    lemma_no_name(m, b);
    lemma_placed(a, n, rest, name);
    let lead = a + name + m;
    assert(a + name + rest =~= lead + d + b);
    assert(!lead.contains('{')) by {
        lemma_neither(a, name, '{');
        lemma_neither(a + name, m, '{');
    }
    lemma_absent(b, d);
    lemma_placed(lead, d, b, safe);
    assert(lead + safe + b =~= a + name + m + safe + b);
    lemma_absent(a, n);
    lemma_absent(a, d);
    text::law_replacing_goes_left_to_right(a, n, name);
    text::law_replacing_goes_left_to_right(a, d, safe);
}

proof fn lemma_neither(a: Seq<char>, b: Seq<char>, c: char)
    requires
        !a.contains(c),
        !b.contains(c),
    ensures
        !(a + b).contains(c),
{
    assert forall|i: int| 0 <= i < (a + b).len() implies (a + b)[i] != c by {
        if i < a.len() {
            assert(a.contains(a[i]));
        } else {
            assert(b.contains(b[i - a.len()]));
        }
    }
}

/// A place does not stand where there is no brace.
proof fn lemma_absent(s: Seq<char>, from: Seq<char>)
    requires
        from.len() > 0,
        from[0] == '{',
        !s.contains('{'),
    ensures
        !text::occurs(s, from),
{
    assert forall|j: int| !occurs_at(s, from, j) by {
        if occurs_at(s, from, j) {
            assert(s.subrange(j, j + from.len())[0] == from[0]);
            assert(s.contains(s[j]));
        }
    }
}

/// A place is filled in where it stands.
proof fn lemma_placed(a: Seq<char>, from: Seq<char>, b: Seq<char>, to: Seq<char>)
    requires
        from.len() > 0,
        from[0] == '{',
        !a.contains('{'),
        !text::occurs(b, from),
    ensures
        replaced(a + from + b, from, to) == a + to + b,
{
    let t = a + from + b;
    let n = a.len() as int;
    assert(t.subrange(n, n + from.len()) =~= from);
    assert forall|j: int| 0 <= j < n implies !occurs_at(t, from, j) by {
        if occurs_at(t, from, j) {
            assert(t.subrange(j, j + from.len())[0] == from[0]);
            assert(t[j] == a[j]);
            assert(a.contains(a[j]));
        }
    }
    text::law_replacing_goes_left_to_right(t, from, to);
    assert(occurs_at(t, from, n));
    assert(t.take(n) =~= a);
    assert(t.skip(n + from.len()) =~= b);
    text::law_replacing_goes_left_to_right(b, from, to);
}

/// The description's place is not the name's.
proof fn lemma_no_name(m: Seq<char>, b: Seq<char>)
    requires
        !m.contains('{'),
        !b.contains('{'),
    ensures
        !text::occurs(m + "{{description}}"@ + b, "{{name}}"@),
{
    reveal_strlit("{{name}}");
    reveal_strlit("{{description}}");
    let n = "{{name}}"@;
    let d = "{{description}}"@;
    assert(n.len() == 8 && n[0] == '{' && n[1] == '{' && n[2] == 'n');
    assert(d.len() == 15 && d[2] == 'd');
    assert forall|i: int| 2 <= i < 15 implies d[i] != '{' by {}
    let rest = m + d + b;
    assert forall|j: int| !occurs_at(rest, n, j) by {
        if occurs_at(rest, n, j) {
            let part = rest.subrange(j, j + 8);
            assert(part[0] == '{' && part[1] == '{' && part[2] == 'n');
            assert(rest[j] == '{' && rest[j + 1] == '{' && rest[j + 2] == 'n');
            if j < m.len() {
                assert(m.contains(m[j]));
            } else if j < m.len() + 15 {
                assert(rest[j] == d[j - m.len()]);
                assert(j == m.len() || j == m.len() + 1);
                assert(rest[m.len() as int + 2] == d[2]);
            } else {
                assert(b.contains(b[j - m.len() - 15]));
            }
        }
    }
}

/// A file is listed by its path below the tree, and what is not in the tree is not
/// listed.
pub proof fn law_files_are_listed_by_their_path_below(root: Seq<char>, name: Seq<char>)
    requires
        root.len() > 0,
        paths::is_simple(name),
        !name.contains('\\'),
    ensures
        listed_as(root, below(root, name)) == Some(name),
        forall|path: Seq<char>|
            !#[trigger] inside(path, root) ==> listed_as(root, path) is None,
{
    paths::lemma_name_below(root, name);
    let p = parts(below(root, name));
    assert(p.skip(parts(root).len() as int) =~= seq![PartView::Name(name)]);
    let one = seq![PartView::Name(name)];
    assert(one.drop_last() =~= Seq::<PartView>::empty());
    assert(paths::written(one.drop_last()) == Seq::<char>::empty());
    assert(paths::written(one) =~= name);
    reveal_strlit("\\");
    assert("\\"@ =~= seq!['\\']);
    text::law_replacing_goes_by_character(name, name, '\\', "/"@);
}

/// An edit is confined to the tree: where the tree stands on disk, a path is accepted
/// only if what it reaches lies in it.
pub proof fn law_an_edit_stays_where_it_is(
    full: Seq<char>,
    root: Option<Seq<char>>,
    place: PlaceView,
)
    ensures
        match confined(full, root, place) {
            Ok(p) => p == full && (root matches Some(r) ==> (place matches PlaceView::Reached(base, _)
                && inside(base, r))),
            Err(_) => root matches Some(r) && !(place matches PlaceView::Reached(base, _) && inside(
                base,
                r,
            )),
        },
{
}

/// A change that was refused is reported as a failure of its slot, with why; what a
/// build or a checkout leaves behind is no source.
pub proof fn law_a_refused_change_is_a_failure(
    r: CompileReport,
    slot: Seq<char>,
    detail: Seq<char>,
    name: Seq<char>,
)
    ensures
        error_report(r, slot, detail) ==> !r.success && r.slot@ == slot && r.detail@ == detail
            && r.revision is None && !r.pending_swap,
        passed_over("target"@),
        passed_over(".git"@),
        passed_over(name) ==> name == "target"@ || name == ".git"@,
{
}

} // verus!
