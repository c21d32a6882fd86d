//! Hot reload: which slots a change on disk affects.
//!
//! Anything that changes in the guest source trees goes through the same
//! pipeline the agent's self-modification uses. Editing a file is therefore
//! exactly as safe as the agent editing itself.
use vstd::prelude::*;

use crate::config::{source_dir, Config, Paths};
use crate::paths;
use crate::paths::{inside, part_text, part_views, parts, relative, PartView};
use crate::revisions::slot_views;
use crate::slot::{Slot, SlotView};
use crate::text;
use crate::text::{after_prefix, ends, texts};

verus! {

/// The source trees that are on disk: whether the agent's is, and the
/// directories that hold a crate among the gateways and the tools.
#[derive(Debug, PartialEq, Eq)]
pub struct OnDisk {
    /// Whether the agent's crate is there.
    pub agent: bool,
    /// The gateway crates, by directory.
    pub gateways: Vec<String>,
    /// The tool crates, by directory.
    pub tools: Vec<String>,
}

/// The slot a gateway or a tool of a name fills.
pub open spec fn slot_of(tool: bool, name: Seq<char>) -> SlotView {
    if tool {
        SlotView::Tool(name)
    } else {
        SlotView::Gateway(name)
    }
}

fn make_slot(tool: bool, name: &str) -> (r: Slot)
    ensures
        r@ == slot_of(tool, name@),
{
    if tool {
        Slot::tool(name)
    } else {
        Slot::gateway(name)
    }
}

/// The slots of these directories. The prefix is a naming convention, not part
/// of the slot's name; what does not follow it fills no slot.
pub open spec fn named(tool: bool, prefix: Seq<char>, dirs: Seq<Seq<char>>) -> Seq<SlotView>
    decreases dirs.len(),
{
    if dirs.len() == 0 {
        Seq::empty()
    } else {
        match after_prefix(dirs.last(), prefix) {
            Some(short) => named(tool, prefix, dirs.drop_last()).push(slot_of(tool, short)),
            None => named(tool, prefix, dirs.drop_last()),
        }
    }
}

/// Appends the slots of these directories.
pub fn append_named(out: &mut Vec<Slot>, tool: bool, prefix: &str, dirs: &Vec<String>)
    ensures
        slot_views(final(out)@) == slot_views(old(out)@) + named(tool, prefix@, texts(dirs@)),
{
    let ghost start = slot_views(out@);
    let ghost all = texts(dirs@);
    assert(slot_views(out@) =~= start + named(tool, prefix@, all.take(0)));
    for i in 0..dirs.len()
        invariant
            all == texts(dirs@),
            slot_views(out@) == start + named(tool, prefix@, all.take(i as int)),
    {
        let ghost had = out@;
        proof {
            assert(all.take(i + 1).drop_last() =~= all.take(i as int));
            assert(all.take(i + 1).last() == dirs@[i as int]@);
        }
        if let Some(short) = text::strip_prefix(dirs[i].as_str(), prefix) {
            let slot = make_slot(tool, short.as_str());
            out.push(slot);
            assert(slot_views(out@) =~= slot_views(had).push(slot@));
            assert(slot_views(out@) =~= start + named(tool, prefix@, all.take(i + 1)));
        }
    }
    assert(all.take(dirs@.len() as int) =~= all);
}

/// Every slot that has a source tree on disk.
pub open spec fn source_slots(p: Paths, disk: OnDisk) -> Seq<SlotView> {
    (if disk.agent {
        seq![SlotView::Agent]
    } else {
        Seq::empty()
    }) + named(false, p.gateway_prefix@, texts(disk.gateways@)) + named(
        true,
        p.tool_prefix@,
        texts(disk.tools@),
    )
}

/// Every slot that has a source tree on disk.
pub fn all_source_slots(cfg: &Config, disk: &OnDisk) -> (r: Vec<Slot>)
    ensures
        slot_views(r@) == source_slots(cfg.paths, *disk),
{
    let mut slots: Vec<Slot> = Vec::new();
    if disk.agent {
        slots.push(Slot::Agent);
    }
    assert(slot_views(slots@) =~= if disk.agent {
        seq![SlotView::Agent]
    } else {
        Seq::empty()
    });
    append_named(&mut slots, false, cfg.paths.gateway_prefix.as_str(), &disk.gateways);
    append_named(&mut slots, true, cfg.paths.tool_prefix.as_str(), &disk.tools);
    slots
}

/// Whether a part of a path marks build output or version control churn.
pub open spec fn churn_part(part: Seq<char>) -> bool {
    part == "target"@ || part == ".git"@ || ends(part, ".lock"@)
}

/// Whether a path is build output or version control churn, which are not
/// source changes.
pub open spec fn is_churn(path: Seq<char>) -> bool {
    exists|i: int| 0 <= i < parts(path).len() && churn_part(part_text(#[trigger] parts(path)[i]))
}

fn churns(path: &str) -> (r: bool)
    ensures
        r == is_churn(path@),
{
    let items = paths::parse(path);
    let ghost all = parts(path@);
    for i in 0..items.len()
        invariant
            all == parts(path@),
            all == part_views(items@),
            forall|j: int| 0 <= j < i ==> !churn_part(part_text(#[trigger] all[j])),
    {
        let part = paths::part_string(&items[i]);
        assert(all[i as int] == items@[i as int]@);
        if text::same(part.as_str(), "target") || text::same(part.as_str(), ".git")
            || text::ends_with(part.as_str(), ".lock") {
            return true;
        }
    }
    false
}

/// The slot of the crate a path lies in, among those under a directory.
pub open spec fn slot_under(
    path: Seq<char>,
    root: Seq<char>,
    prefix: Seq<char>,
    tool: bool,
) -> Option<SlotView> {
    match relative(path, root) {
        None => None,
        Some(rest) => if rest.len() == 0 {
            None
        } else {
            match after_prefix(part_text(rest[0]), prefix) {
                Some(short) => Some(slot_of(tool, short)),
                None => None,
            }
        },
    }
}

fn crate_under(path: &str, root: &str, prefix: &str, tool: bool) -> (r: Option<Slot>)
    ensures
        match r {
            Some(slot) => slot_under(path@, root@, prefix@, tool) == Some(slot@),
            None => slot_under(path@, root@, prefix@, tool) is None,
        },
{
    match paths::strip_prefix(path, root) {
        None => None,
        Some(rest) => {
            if rest.len() == 0 {
                return None;
            }
            assert(part_views(rest@)[0] == rest@[0]@);
            let dir = paths::part_string(&rest[0]);
            match text::strip_prefix(dir.as_str(), prefix) {
                Some(short) => Some(make_slot(tool, short.as_str())),
                None => None,
            }
        },
    }
}

/// Which slots a changed path affects. A change of the contract alters what
/// every guest is compiled against, so it rebuilds all of them.
pub open spec fn affected(p: Paths, path: Seq<char>, disk: OnDisk) -> Seq<SlotView> {
    if is_churn(path) {
        Seq::empty()
    } else if inside(path, p.wit@) {
        source_slots(p, disk)
    } else if inside(path, p.agent@) {
        seq![SlotView::Agent]
    } else {
        match slot_under(path, p.gateways@, p.gateway_prefix@, false) {
            Some(slot) => seq![slot],
            None => match slot_under(path, p.tools@, p.tool_prefix@, true) {
                Some(slot) => seq![slot],
                None => Seq::empty(),
            },
        }
    }
}

/// Which slots a changed path affects, given what is on disk.
pub fn slots_for_path(cfg: &Config, path: &str, disk: &OnDisk) -> (r: Vec<Slot>)
    ensures
        slot_views(r@) == affected(cfg.paths, path@, *disk),
{
    // Build output and version control churn are not source changes.
    if churns(path) {
        let none: Vec<Slot> = Vec::new();
        assert(slot_views(none@) =~= Seq::empty());
        return none;
    }
    // A change to the contract recompiles every guest against it.
    if paths::starts_with(path, cfg.paths.wit.as_str()) {
        return all_source_slots(cfg, disk);
    }
    let found = if paths::starts_with(path, cfg.paths.agent.as_str()) {
        Some(Slot::Agent)
    } else {
        match crate_under(
            path,
            cfg.paths.gateways.as_str(),
            cfg.paths.gateway_prefix.as_str(),
            false,
        ) {
            Some(slot) => Some(slot),
            None => crate_under(
                path,
                cfg.paths.tools.as_str(),
                cfg.paths.tool_prefix.as_str(),
                true,
            ),
        }
    };
    let mut out: Vec<Slot> = Vec::new();
    if let Some(slot) = found {
        out.push(slot);
    }
    assert(slot_views(out@) =~= affected(cfg.paths, path@, *disk));
    out
}

/// Each slot of a list once, where it first stands.
pub open spec fn once(slots: Seq<SlotView>) -> Seq<SlotView>
    decreases slots.len(),
{
    if slots.len() == 0 {
        Seq::empty()
    } else {
        let before = once(slots.drop_last());
        if before.contains(slots.last()) {
            before
        } else {
            before.push(slots.last())
        }
    }
}

fn holds(slots: &Vec<Slot>, slot: &Slot) -> (r: bool)
    ensures
        r == slot_views(slots@).contains(slot@),
{
    for i in 0..slots.len()
        invariant
            forall|j: int| 0 <= j < i ==> (#[trigger] slot_views(slots@)[j]) != slot@,
    {
        assert(slot_views(slots@)[i as int] == slots@[i as int]@);
        if slots[i].is(slot) {
            assert(slot_views(slots@)[i as int] == slot@);
            return true;
        }
    }
    false
}

/// The slots to build of everything that is queued: each once, so that saving
/// many files sets off one build of a slot and not one for every file.
pub fn coalesce(queued: &Vec<Slot>) -> (r: Vec<Slot>)
    ensures
        slot_views(r@) == once(slot_views(queued@)),
{
    let ghost all = slot_views(queued@);
    let mut out: Vec<Slot> = Vec::new();
    assert(all.take(0) =~= Seq::<SlotView>::empty());
    assert(slot_views(out@) =~= Seq::<SlotView>::empty());
    for i in 0..queued.len()
        invariant
            all == slot_views(queued@),
            slot_views(out@) == once(all.take(i as int)),
    {
        let ghost had = out@;
        proof {
            assert(all.take(i + 1).drop_last() =~= all.take(i as int));
            assert(all.take(i + 1).last() == queued@[i as int]@);
        }
        if !holds(&out, &queued[i]) {
            let slot = queued[i].clone();
            out.push(slot);
            assert(slot_views(out@) =~= slot_views(had).push(slot@));
        }
    }
    assert(all.take(queued@.len() as int) =~= all);
    out
}

/// The slots that any of some changed paths affects.
pub open spec fn all_affected(p: Paths, paths: Seq<Seq<char>>, disk: OnDisk) -> Seq<SlotView>
    decreases paths.len(),
{
    if paths.len() == 0 {
        Seq::empty()
    } else {
        all_affected(p, paths.drop_last(), disk) + affected(p, paths.last(), disk)
    }
}

/// Which slots some changed paths affect, each once.
pub fn slots_for_paths(cfg: &Config, paths: &Vec<String>, disk: &OnDisk) -> (r: Vec<Slot>)
    ensures
        slot_views(r@) == once(all_affected(cfg.paths, texts(paths@), *disk)),
{
    let ghost all = texts(paths@);
    let mut queued: Vec<Slot> = Vec::new();
    assert(all.take(0) =~= Seq::<Seq<char>>::empty());
    assert(slot_views(queued@) =~= Seq::<SlotView>::empty());
    for i in 0..paths.len()
        invariant
            all == texts(paths@),
            slot_views(queued@) == all_affected(cfg.paths, all.take(i as int), *disk),
    {
        let ghost had = queued@;
        proof {
            assert(all.take(i + 1).drop_last() =~= all.take(i as int));
            assert(all.take(i + 1).last() == paths@[i as int]@);
        }
        let mut found = slots_for_path(cfg, paths[i].as_str(), disk);
        let ghost more = found@;
        queued.append(&mut found);
        assert(slot_views(queued@) =~= slot_views(had) + slot_views(more));
    }
    assert(all.take(paths@.len() as int) =~= all);
    coalesce(&queued)
}

/// Nothing that is queued is lost, and nothing is built twice.
pub proof fn law_every_queued_slot_is_built_once(slots: Seq<SlotView>, slot: SlotView)
    ensures
        once(slots).contains(slot) == slots.contains(slot),
        once(slots).no_duplicates(),
    decreases slots.len(),
{
    if slots.len() > 0 {
        let rest = slots.drop_last();
        let before = once(rest);
        law_every_queued_slot_is_built_once(rest, slot);
        law_every_queued_slot_is_built_once(rest, slots.last());
        assert(slots =~= rest.push(slots.last()));
        if rest.contains(slot) {
            let k = choose|k: int| 0 <= k < rest.len() && rest[k] == slot;
            assert(slots[k] == slot);
        }
        if slots.contains(slot) && slot != slots.last() {
            let k = choose|k: int| 0 <= k < slots.len() && slots[k] == slot;
            assert(rest[k] == slot);
        }
        if !before.contains(slots.last()) {
            let after = before.push(slots.last());
            if before.contains(slot) {
                let k = choose|k: int| 0 <= k < before.len() && before[k] == slot;
                assert(after[k] == slot);
            }
            assert(after[before.len() as int] == slots.last());
            assert(slots[slots.len() - 1] == slots.last());
            if after.contains(slot) && slot != slots.last() {
                let k = choose|k: int| 0 <= k < after.len() && after[k] == slot;
                assert(before[k] == slot);
            }
            assert forall|i: int, j: int|
                0 <= i < after.len() && 0 <= j < after.len() && i != j implies after[i]
                != after[j] by {
                if i < before.len() && j < before.len() {
                    assert(before[i] != before[j]);
                } else if i < before.len() {
                    assert(before.contains(before[i]));
                } else if j < before.len() {
                    assert(before.contains(before[j]));
                }
            }
        } else if slot == slots.last() {
            assert(slots[slots.len() - 1] == slot);
        }
    }
}

/// A change outside the contract rebuilds one slot at most.
pub proof fn law_a_change_rebuilds_one_slot(p: Paths, path: Seq<char>, disk: OnDisk)
    requires
        !inside(path, p.wit@),
    ensures
        affected(p, path, disk).len() <= 1,
{
}

/// A change in the source tree of a slot rebuilds that slot and no other, where
/// the tree lies in no other's.
pub proof fn law_a_source_tree_rebuilds_its_slot(
    p: Paths,
    slot: SlotView,
    path: Seq<char>,
    disk: OnDisk,
)
    requires
        inside(path, source_dir(p, slot)),
        !is_churn(path),
        !inside(path, p.wit@),
        slot is Agent || !inside(path, p.agent@),
        slot is Tool ==> !inside(path, p.gateways@),
        slot matches SlotView::Gateway(n) ==> names_a_crate(p.gateways@, p.gateway_prefix@ + n),
        slot matches SlotView::Tool(n) ==> names_a_crate(p.tools@, p.tool_prefix@ + n),
    ensures
        affected(p, path, disk) == seq![slot],
{
    match slot {
        SlotView::Agent => {},
        SlotView::Gateway(n) => {
            lemma_slot_under(path, p.gateways@, p.gateway_prefix@, n, false);
        },
        SlotView::Tool(n) => {
            lemma_slot_under(path, p.tools@, p.tool_prefix@, n, true);
        },
    }
}

/// Whether a text names a directory just below another.
pub open spec fn names_a_crate(root: Seq<char>, dir: Seq<char>) -> bool {
    root.len() > 0 && paths::is_simple(dir)
}

proof fn lemma_slot_under(
    path: Seq<char>,
    root: Seq<char>,
    prefix: Seq<char>,
    name: Seq<char>,
    tool: bool,
)
    requires
        names_a_crate(root, prefix + name),
        inside(path, paths::below(root, prefix + name)),
    ensures
        slot_under(path, root, prefix, tool) == Some(slot_of(tool, name)),
{
    let dir = prefix + name;
    if paths::absolute(dir) {
        assert(dir.contains(dir[0]));
    }
    paths::lemma_parts_beside(root, dir);
    text::lemma_one_piece(dir, '/');
    paths::lemma_one_step(dir);
    let a = parts(root);
    let b = parts(paths::below(root, dir));
    assert(b == a.push(paths::PartView::Name(dir)));
    let c = parts(path);
    assert(c.take(a.len() as int) =~= b.take(a.len() as int));
    assert(b.take(a.len() as int) =~= a);
    assert(c.take(b.len() as int)[a.len() as int] == c[a.len() as int]);
    assert(c.skip(a.len() as int)[0] == paths::PartView::Name(dir));
    assert(dir.take(prefix.len() as int) =~= prefix);
    assert(dir.skip(prefix.len() as int) =~= name);
}

/// A change of the contract rebuilds every slot that has a source tree.
pub proof fn law_the_contract_rebuilds_everything(p: Paths, path: Seq<char>, disk: OnDisk)
    requires
        inside(path, p.wit@),
        !is_churn(path),
    ensures
        affected(p, path, disk) == source_slots(p, disk),
{
}

/// Build output never sets off a build.
pub proof fn law_build_output_sets_off_nothing(p: Paths, path: Seq<char>, disk: OnDisk, i: int)
    requires
        0 <= i < parts(path).len(),
        part_text(parts(path)[i]) == "target"@,
    ensures
        affected(p, path, disk).len() == 0,
{
}

/// A crate's directory stands for the slot of its kind whose name follows the prefix,
/// and a directory without the prefix for none; the slots come in the order of their
/// directories.
pub proof fn law_every_crate_is_a_slot(
    tool: bool,
    prefix: Seq<char>,
    before: Seq<Seq<char>>,
    name: Seq<char>,
    other: Seq<char>,
    after: Seq<Seq<char>>,
)
    requires
        !text::begins(other, prefix),
    ensures
        named(tool, prefix, before + seq![prefix + name] + after) == named(tool, prefix, before)
            + seq![slot_of(tool, name)] + named(tool, prefix, after),
        named(tool, prefix, before + seq![other] + after) == named(tool, prefix, before) + named(
            tool,
            prefix,
            after,
        ),
        named(tool, prefix, Seq::empty()).len() == 0,
        slot_of(true, name) == SlotView::Tool(name),
        slot_of(false, name) == SlotView::Gateway(name),
{
    let dir = prefix + name;
    assert(dir.subrange(0, prefix.len() as int) =~= prefix);
    assert(dir.skip(prefix.len() as int) =~= name);
    lemma_named_add(tool, prefix, before + seq![dir], after);
    lemma_named_add(tool, prefix, before, seq![dir]);
    lemma_named_add(tool, prefix, before + seq![other], after);
    lemma_named_add(tool, prefix, before, seq![other]);
    assert(seq![dir].drop_last() =~= Seq::<Seq<char>>::empty());
    assert(seq![other].drop_last() =~= Seq::<Seq<char>>::empty());
    assert(named(tool, prefix, Seq::<Seq<char>>::empty()) == Seq::<SlotView>::empty());
    assert(named(tool, prefix, seq![dir]) =~= seq![slot_of(tool, name)]);
    assert(named(tool, prefix, seq![other]) =~= Seq::<SlotView>::empty());
    assert(named(tool, prefix, before) + Seq::<SlotView>::empty() =~= named(tool, prefix, before));
}

proof fn lemma_named_add(tool: bool, prefix: Seq<char>, a: Seq<Seq<char>>, b: Seq<Seq<char>>)
    ensures
        named(tool, prefix, a + b) == named(tool, prefix, a) + named(tool, prefix, b),
    decreases b.len(),
{
    if b.len() == 0 {
        assert(a + b =~= a);
        assert(named(tool, prefix, a) + named(tool, prefix, b) =~= named(tool, prefix, a));
    } else {
        assert((a + b).drop_last() =~= a + b.drop_last());
        assert((a + b).last() == b.last());
        lemma_named_add(tool, prefix, a, b.drop_last());
        if let Some(short) = after_prefix(b.last(), prefix) {
            let s = slot_of(tool, short);
            assert((named(tool, prefix, a) + named(tool, prefix, b.drop_last())).push(s)
                =~= named(tool, prefix, a) + named(tool, prefix, b.drop_last()).push(s));
        }
    }
}

/// Everything that is on disk is rebuilt when the contract changes: the agent where it
/// is there, and every gateway and tool.
pub proof fn law_everything_on_disk_has_a_slot(p: Paths, disk: OnDisk, slot: SlotView)
    ensures
        source_slots(p, disk).contains(SlotView::Agent) <==> disk.agent,
        named(false, p.gateway_prefix@, texts(disk.gateways@)).contains(slot) ==> source_slots(
            p,
            disk,
        ).contains(slot),
        named(true, p.tool_prefix@, texts(disk.tools@)).contains(slot) ==> source_slots(
            p,
            disk,
        ).contains(slot),
{
    let all = source_slots(p, disk);
    let gates = named(false, p.gateway_prefix@, texts(disk.gateways@));
    let tools = named(true, p.tool_prefix@, texts(disk.tools@));
    let lead: int = if disk.agent {
        1
    } else {
        0
    };
    if disk.agent {
        assert(all[0] == SlotView::Agent);
    }
    lemma_named_kind(false, p.gateway_prefix@, texts(disk.gateways@));
    lemma_named_kind(true, p.tool_prefix@, texts(disk.tools@));
    if all.contains(SlotView::Agent) && !disk.agent {
        let i = choose|i: int| 0 <= i < all.len() && all[i] == SlotView::Agent;
        if i < gates.len() {
            assert(gates[i] == all[i]);
        } else {
            assert(tools[i - gates.len()] == all[i]);
        }
    }
    if gates.contains(slot) {
        let i = choose|i: int| 0 <= i < gates.len() && gates[i] == slot;
        assert(all[lead + i] == slot);
    }
    if tools.contains(slot) {
        let i = choose|i: int| 0 <= i < tools.len() && tools[i] == slot;
        assert(all[lead + gates.len() + i] == slot);
    }
}

proof fn lemma_named_kind(tool: bool, prefix: Seq<char>, dirs: Seq<Seq<char>>)
    ensures
        forall|i: int|
            0 <= i < named(tool, prefix, dirs).len() ==> (#[trigger] named(
                tool,
                prefix,
                dirs,
            )[i]) != SlotView::Agent,
    decreases dirs.len(),
{
    if dirs.len() > 0 {
        lemma_named_kind(tool, prefix, dirs.drop_last());
        let had = named(tool, prefix, dirs.drop_last());
        let all = named(tool, prefix, dirs);
        assert forall|i: int| 0 <= i < all.len() implies (#[trigger] all[i]) != SlotView::Agent by {
            if i < had.len() {
                assert(all[i] == had[i]);
            }
        }
    }
}

/// What a build, a checkout or a lock leaves behind sets off nothing, wherever it
/// stands in a path; and a path outside every tree sets off nothing either.
pub proof fn law_churn_sets_off_nothing(
    p: Paths,
    path: Seq<char>,
    disk: OnDisk,
    i: int,
    name: Seq<char>,
)
    ensures
        0 <= i < parts(path).len() && (part_text(parts(path)[i]) == ".git"@ || part_text(
            parts(path)[i],
        ) == name + ".lock"@) ==> affected(p, path, disk).len() == 0,
        !inside(path, p.wit@) && !inside(path, p.agent@) && !inside(path, p.gateways@) && !inside(
            path,
            p.tools@,
        ) ==> affected(p, path, disk).len() == 0,
        (forall|j: int|
            0 <= j < parts(path).len() ==> !churn_part(part_text(#[trigger] parts(path)[j])))
            && inside(path, p.agent@) && !inside(path, p.wit@) ==> affected(p, path, disk) == seq![
            SlotView::Agent,
        ],
{
    let lock = name + ".lock"@;
    assert(lock.subrange(name.len() as int, lock.len() as int) =~= ".lock"@);
}

/// A batch of changes affects exactly the slots that some change of it affects.
pub proof fn law_a_batch_affects_what_its_changes_affect(
    p: Paths,
    paths: Seq<Seq<char>>,
    disk: OnDisk,
    slot: SlotView,
)
    ensures
        all_affected(p, paths, disk).contains(slot) <==> (exists|i: int|
            0 <= i < paths.len() && affected(p, #[trigger] paths[i], disk).contains(slot)),
    decreases paths.len(),
{
    if paths.len() > 0 {
        let rest = paths.drop_last();
        law_a_batch_affects_what_its_changes_affect(p, rest, disk, slot);
        let a = all_affected(p, rest, disk);
        let b = affected(p, paths.last(), disk);
        let all = a + b;
        if a.contains(slot) {
            let k = choose|k: int| 0 <= k < a.len() && a[k] == slot;
            assert(all[k] == slot);
            let i = choose|i: int|
                0 <= i < rest.len() && affected(p, #[trigger] rest[i], disk).contains(slot);
            assert(paths[i] == rest[i]);
        }
        if b.contains(slot) {
            let k = choose|k: int| 0 <= k < b.len() && b[k] == slot;
            assert(all[a.len() + k] == slot);
            assert(paths[paths.len() - 1] == paths.last());
        }
        if all.contains(slot) {
            let k = choose|k: int| 0 <= k < all.len() && all[k] == slot;
            if k < a.len() {
                assert(a[k] == slot);
            } else {
                assert(b[k - a.len()] == slot);
            }
        }
        if exists|i: int|
            0 <= i < paths.len() && affected(p, #[trigger] paths[i], disk).contains(slot) {
            let i = choose|i: int|
                0 <= i < paths.len() && affected(p, #[trigger] paths[i], disk).contains(slot);
            if i < rest.len() {
                assert(rest[i] == paths[i]);
            }
        }
    }
}

} // verus!
