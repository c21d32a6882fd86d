//! Filesystem access on the host.
//!
//! These operations touch the machine the harness runs on, so the whole
//! interface is off unless configuration turns it on.
//!
//! The real boundary is the configured roots: every path is resolved and must
//! land inside one of them, checked after symlinks are followed so a link
//! cannot be used to step outside. The protected list is a smaller thing: it
//! stops the system from deleting its own database by accident, and is not a
//! security control, because a terminal session can reach those paths anyway.
//!
//! What the disk says is handed in; everything that is decided from it is
//! decided here.
use vstd::prelude::*;

use crate::config::{is_listed, lists, Config, FilesystemSettings};
use crate::order;
use crate::order::{before, Ranked};
use crate::paths;
use crate::paths::{
    absolute, below, container, drive_rooted, inside, normal, part_text, part_views, parts, relative,
    written, Part, PartView,
};
use crate::text;
use crate::text::{
    after_prefix, byte_len, decimal, joined, outcome_of, replaced, text_of, texts, trimmed,
};
use crate::types::FsEntry;

verus! {

// --- where a path leads -----------------------------------------------------

/// A path as it is meant: one that starts at a drive does so below the root,
/// whatever the host.
pub open spec fn meant(raw: Seq<char>) -> Seq<char> {
    let path = trimmed(raw);
    if path.len() > 2 && path[2] == '/' {
        drive_rooted(path)
    } else {
        path
    }
}

/// Where a path leads before the disk is asked: against the first root unless
/// it is absolute or starts at a drive, without detours. Or why it leads nowhere.
pub open spec fn located(roots: Seq<Seq<char>>, raw: Seq<char>) -> Result<Seq<char>, Seq<char>> {
    let path = meant(raw);
    if path.len() == 0 {
        Err("path is empty"@)
    } else if roots.len() == 0 {
        Err("no filesystem roots are configured"@)
    } else {
        Ok(
            normal(
                if absolute(path) {
                    path
                } else {
                    below(roots[0], path)
                },
            ),
        )
    }
}

fn mean(raw: &str) -> (r: String)
    ensures
        r@ == meant(raw@),
{
    let path = text::trim(raw);
    let chars = text::chars_of(path.as_str());
    if chars.len() > 2 && chars[2] == '/' {
        paths::root_drive(path.as_str())
    } else {
        path
    }
}

/// Where a path leads before the disk is asked.
pub fn locate(cfg: &Config, raw: &str) -> (r: Result<String, String>)
    ensures
        outcome_of(r) == located(texts(cfg.filesystem.roots@), raw@),
{
    let path = mean(raw);
    if text::is_empty(path.as_str()) {
        return Err("path is empty".to_owned());
    }
    if cfg.filesystem.roots.len() == 0 {
        return Err("no filesystem roots are configured".to_owned());
    }
    assert(texts(cfg.filesystem.roots@)[0] == cfg.filesystem.roots@[0]@);
    let joined = if paths::is_absolute(path.as_str()) {
        path
    } else {
        paths::join(cfg.filesystem.roots[0].as_str(), path.as_str())
    };
    Ok(paths::normalise(joined.as_str()))
}

// --- asking the disk --------------------------------------------------------

/// What the disk says of one path.
#[derive(Debug, PartialEq, Eq)]
pub enum Seen {
    /// It exists, and leads here once its symlinks are followed.
    At(String),
    /// There is nothing of that name.
    Absent,
    /// There is a symlink, or something that cannot be followed, and it leads
    /// nowhere.
    Astray,
}

/// Where a path was found to lead.
#[derive(Debug, PartialEq, Eq)]
pub enum Place {
    /// The path with its symlinks followed, or the nearest path above it that
    /// exists, with its symlinks followed, and how many parts at the end of the
    /// path are not there: none where it exists.
    Reached(String, usize),
    /// A symlink on the way leads nowhere, or nothing on the way exists. What lies
    /// behind it is not to be created.
    Nowhere,
}

/// What to do next, looking for the nearest path that exists.
#[derive(Debug, PartialEq, Eq)]
pub enum Step {
    /// Nothing more: this is where the path leads.
    Done(Place),
    /// Ask the disk of this path, below which so many parts are not there.
    Above(String, usize),
}

/// Where a path was found to lead.
pub enum PlaceView {
    /// Something that exists, and how much of the path is not there.
    Reached(Seq<char>, usize),
    /// Nowhere.
    Nowhere,
}

/// What to do next.
pub enum StepView {
    /// Nothing more.
    Done(PlaceView),
    /// Ask the disk of another path.
    Above(Seq<char>, usize),
}

impl View for Place {
    type V = PlaceView;

    open spec fn view(&self) -> PlaceView {
        match self {
            Place::Reached(base, missing) => PlaceView::Reached(base@, *missing),
            Place::Nowhere => PlaceView::Nowhere,
        }
    }
}

impl View for Step {
    type V = StepView;

    open spec fn view(&self) -> StepView {
        match self {
            Step::Done(place) => StepView::Done(place@),
            Step::Above(path, missing) => StepView::Above(path@, *missing),
        }
    }
}

/// The step after the disk was asked of a path below which so many parts are not
/// there.
pub open spec fn sought(path: Seq<char>, missing: usize, seen: Seen) -> StepView {
    match seen {
        Seen::At(base) => StepView::Done(PlaceView::Reached(base@, missing)),
        Seen::Astray => StepView::Done(PlaceView::Nowhere),
        Seen::Absent => match container(path) {
            Some(above) => if missing < usize::MAX {
                StepView::Above(above, (missing + 1) as usize)
            } else {
                StepView::Done(PlaceView::Nowhere)
            },
            None => StepView::Done(PlaceView::Nowhere),
        },
    }
}

/// The step after the disk was asked of a path.
pub fn seek(path: &str, missing: usize, seen: Seen) -> (r: Step)
    ensures
        r@ == sought(path@, missing, seen),
{
    match seen {
        Seen::At(base) => Step::Done(Place::Reached(base, missing)),
        Seen::Astray => Step::Done(Place::Nowhere),
        Seen::Absent => match paths::parent(path) {
            Some(above) => if missing < usize::MAX {
                Step::Above(above, missing + 1)
            } else {
                Step::Done(Place::Nowhere)
            },
            None => Step::Done(Place::Nowhere),
        },
    }
}

/// What the disk says about a path and about the roots.
#[derive(Debug, PartialEq, Eq)]
pub struct Look {
    /// Where the path leads.
    pub place: Place,
    /// The roots with their symlinks followed.
    pub roots: Vec<String>,
}

/// A path with parts added to it, one below the other.
pub open spec fn extended(base: Seq<char>, items: Seq<PartView>) -> Seq<char>
    decreases items.len(),
{
    if items.len() == 0 {
        base
    } else {
        below(extended(base, items.drop_last()), part_text(items.last()))
    }
}

/// The form of a path that is compared with the roots: what exists of it with its
/// symlinks followed, so none can escape, and what is yet to be created below
/// that.
pub open spec fn probed(path: Seq<char>, base: Seq<char>, missing: usize) -> Seq<char> {
    extended(base, parts(path).skip(parts(path).len() - missing))
}

/// Whether a path lies inside one of the roots.
pub open spec fn inside_any(path: Seq<char>, roots: Seq<Seq<char>>) -> bool {
    exists|i: int| 0 <= i < roots.len() && inside(path, #[trigger] roots[i])
}

/// The message for a path outside the roots.
pub open spec fn outside_text(path: Seq<char>, roots: Seq<Seq<char>>) -> Seq<char> {
    path + " is outside the allowed roots ("@ + joined(roots, ", "@) + ")"@
}

/// Whether a path that was found to lead somewhere lies inside one of the roots.
pub open spec fn leads_inside(path: Seq<char>, place: PlaceView, roots: Seq<Seq<char>>) -> bool {
    match place {
        PlaceView::Reached(base, missing) => missing < parts(path).len() && inside_any(
            probed(path, base, missing),
            roots,
        ),
        PlaceView::Nowhere => false,
    }
}

/// A path that the disk was asked about, if it may be touched.
pub open spec fn accepted(
    roots: Seq<Seq<char>>,
    path: Seq<char>,
    look: Look,
) -> Result<Seq<char>, Seq<char>> {
    if leads_inside(path, look.place@, texts(look.roots@)) {
        Ok(path)
    } else {
        Err(outside_text(path, roots))
    }
}

/// Accepts a located path only if it really lies inside one of the roots.
pub fn resolve(cfg: &Config, path: &str, look: &Look) -> (r: Result<String, String>)
    ensures
        outcome_of(r) == accepted(texts(cfg.filesystem.roots@), path@, *look),
{
    if let Place::Reached(base, missing) = &look.place {
        let items = paths::parse(path);
        let ghost all = parts(path@);
        let n: usize = items.len();
        assert(all.len() == n);
        if *missing < n {
            let from: usize = n - *missing;
            let ghost rest = all.skip(from as int);
            let mut probe = base.clone();
            assert(rest.take(0) =~= Seq::<PartView>::empty());
            for i in from..n
                invariant
                    from <= n == items@.len(),
                    all == part_views(items@),
                    rest == all.skip(from as int),
                    probe@ == extended(base@, rest.take(i - from)),
            {
                proof {
                    assert(rest.take(i + 1 - from).drop_last() =~= rest.take(i - from));
                    assert(rest.take(i + 1 - from).last() == items@[i as int]@);
                }
                probe = paths::join(probe.as_str(), paths::part_string(&items[i]).as_str());
            }
            assert(rest.take(n - from) =~= rest);
            assert(probe@ == probed(path@, base@, *missing));
            for i in 0..look.roots.len()
                invariant
                    look.place@ == PlaceView::Reached(base@, *missing),
                    probe@ == probed(path@, base@, *missing),
                    *missing < parts(path@).len(),
                    forall|j: int|
                        0 <= j < i ==> !inside(probe@, #[trigger] texts(look.roots@)[j]),
            {
                if paths::starts_with(probe.as_str(), look.roots[i].as_str()) {
                    assert(inside(probe@, texts(look.roots@)[i as int]));
                    return Ok(path.to_owned());
                }
            }
        }
    }
    Err(
        path.to_owned().concat(" is outside the allowed roots (").concat(
            text::join(&cfg.filesystem.roots, ", ").as_str(),
        ).concat(")"),
    )
}

/// A canonical path without the prefix that some systems put before it, which
/// does not compare cleanly against ordinary paths.
pub open spec fn plain(path: Seq<char>) -> Seq<char> {
    match after_prefix(path, "\\\\?\\"@) {
        Some(rest) => rest,
        None => path,
    }
}

/// A canonical path without the prefix that some systems put before it.
pub fn canonical(path: &str) -> (r: String)
    ensures
        r@ == plain(path@),
{
    match text::strip_prefix(path, "\\\\?\\") {
        Some(rest) => rest,
        None => path.to_owned(),
    }
}

// --- what is protected ------------------------------------------------------

/// The first part of a list that is on the protected list.
pub open spec fn protected_part(
    items: Seq<PartView>,
    protected: Seq<Seq<char>>,
) -> Option<Seq<char>>
    decreases items.len(),
{
    if items.len() == 0 {
        None
    } else if lists(protected, part_text(items[0])) {
        Some(part_text(items[0]))
    } else {
        protected_part(items.skip(1), protected)
    }
}

/// The part of a path that is on the protected list, looking below each root
/// it lies inside of.
pub open spec fn protected_name(
    roots: Seq<Seq<char>>,
    protected: Seq<Seq<char>>,
    path: Seq<char>,
) -> Option<Seq<char>>
    decreases roots.len(),
{
    if roots.len() == 0 {
        None
    } else {
        match relative(path, roots[0]) {
            Some(items) => match protected_part(items, protected) {
                Some(name) => Some(name),
                None => protected_name(roots.skip(1), protected, path),
            },
            None => protected_name(roots.skip(1), protected, path),
        }
    }
}

fn find_protected(items: &Vec<Part>, protected: &Vec<String>) -> (r: Option<String>)
    ensures
        text_of(r) == protected_part(part_views(items@), texts(protected@)),
{
    let ghost all = part_views(items@);
    let mut i: usize = 0;
    assert(all.skip(0) =~= all);
    while i < items.len()
        invariant
            i <= items@.len(),
            all == part_views(items@),
            protected_part(all.skip(i as int), texts(protected@)) == protected_part(
                all,
                texts(protected@),
            ),
        decreases items@.len() - i,
    {
        assert(all.skip(i as int).skip(1) =~= all.skip(i + 1));
        assert(all[i as int] == items@[i as int]@);
        let name = paths::part_string(&items[i]);
        if is_listed(protected, name.as_str()) {
            return Some(name);
        }
        i = i + 1;
    }
    None
}

/// Whether any part of the path is on the protected list, and which.
pub fn is_protected(cfg: &Config, path: &str) -> (r: Option<String>)
    ensures
        text_of(r) == protected_name(
            texts(cfg.filesystem.roots@),
            texts(cfg.filesystem.protected@),
            path@,
        ),
{
    let ghost roots = texts(cfg.filesystem.roots@);
    let ghost names = texts(cfg.filesystem.protected@);
    let mut i: usize = 0;
    assert(roots.skip(0) =~= roots);
    while i < cfg.filesystem.roots.len()
        invariant
            i <= cfg.filesystem.roots@.len(),
            roots == texts(cfg.filesystem.roots@),
            names == texts(cfg.filesystem.protected@),
            protected_name(roots.skip(i as int), names, path@) == protected_name(
                roots,
                names,
                path@,
            ),
        decreases cfg.filesystem.roots@.len() - i,
    {
        assert(roots.skip(i as int).skip(1) =~= roots.skip(i + 1));
        assert(roots[i as int] == cfg.filesystem.roots@[i as int]@);
        if let Some(items) = paths::strip_prefix(path, cfg.filesystem.roots[i].as_str()) {
            if let Some(name) = find_protected(&items, &cfg.filesystem.protected) {
                return Some(name);
            }
        }
        i = i + 1;
    }
    None
}

// --- how a path is shown ----------------------------------------------------

/// A path relative to the first root it lies inside of, so messages stay
/// readable.
pub open spec fn display_text(roots: Seq<Seq<char>>, path: Seq<char>) -> Seq<char>
    decreases roots.len(),
{
    if roots.len() == 0 {
        path
    } else {
        match relative(path, roots[0]) {
            Some(items) => replaced(written(items), "\\"@, "/"@),
            None => display_text(roots.skip(1), path),
        }
    }
}

/// Shows a path relative to its root, so messages stay readable.
pub fn display(cfg: &Config, path: &str) -> (r: String)
    ensures
        r@ == display_text(texts(cfg.filesystem.roots@), path@),
{
    let ghost roots = texts(cfg.filesystem.roots@);
    let mut i: usize = 0;
    assert(roots.skip(0) =~= roots);
    while i < cfg.filesystem.roots.len()
        invariant
            i <= cfg.filesystem.roots@.len(),
            roots == texts(cfg.filesystem.roots@),
            display_text(roots.skip(i as int), path@) == display_text(roots, path@),
        decreases cfg.filesystem.roots@.len() - i,
    {
        assert(roots.skip(i as int).skip(1) =~= roots.skip(i + 1));
        assert(roots[i as int] == cfg.filesystem.roots@[i as int]@);
        if let Some(items) = paths::strip_prefix(path, cfg.filesystem.roots[i].as_str()) {
            proof {
                reveal_strlit("\\");
            }
            return text::replace(paths::write(&items).as_str(), "\\", "/");
        }
        i = i + 1;
    }
    path.to_owned()
}

/// The message for an operation that the disk refused.
pub open spec fn refused_text(
    roots: Seq<Seq<char>>,
    verb: Seq<char>,
    path: Seq<char>,
    e: Seq<char>,
) -> Seq<char> {
    "cannot "@ + verb + " "@ + display_text(roots, path) + ": "@ + e
}

/// The message for an operation that the disk refused.
pub fn refused(cfg: &Config, verb: &str, path: &str, e: &str) -> (r: String)
    ensures
        r@ == refused_text(texts(cfg.filesystem.roots@), verb@, path@, e@),
{
    "cannot ".to_owned().concat(verb).concat(" ").concat(display(cfg, path).as_str()).concat(
        ": ",
    ).concat(e)
}

// --- what is allowed --------------------------------------------------------

/// The message where access is off.
pub const ACCESS_OFF: &'static str = "filesystem access is off; set filesystem.enabled in genesis.toml to turn it on";

/// The message where deleting is off.
pub const DELETE_OFF: &'static str = "deleting is off; set filesystem.allow_delete to turn it on";

/// Where a path leads for an operation that looks or writes, before the disk
/// is asked.
pub open spec fn reachable(fs: FilesystemSettings, raw: Seq<char>) -> Result<
    Seq<char>,
    Seq<char>,
> {
    if !fs.enabled {
        Err(ACCESS_OFF@)
    } else {
        located(texts(fs.roots@), raw)
    }
}

/// Where a path leads for an operation that looks or writes.
pub fn reach(cfg: &Config, raw: &str) -> (r: Result<String, String>)
    ensures
        outcome_of(r) == reachable(cfg.filesystem, raw@),
{
    if !cfg.filesystem.enabled {
        return Err(ACCESS_OFF.to_owned());
    }
    locate(cfg, raw)
}

/// Where a path leads for a deletion, before the disk is asked.
pub open spec fn deletable(fs: FilesystemSettings, raw: Seq<char>) -> Result<
    Seq<char>,
    Seq<char>,
> {
    if !fs.enabled {
        Err(ACCESS_OFF@)
    } else if !fs.allow_delete {
        Err(DELETE_OFF@)
    } else {
        located(texts(fs.roots@), raw)
    }
}

/// Where a path leads for a deletion.
pub fn reach_to_delete(cfg: &Config, raw: &str) -> (r: Result<String, String>)
    ensures
        outcome_of(r) == deletable(cfg.filesystem, raw@),
{
    if !cfg.filesystem.enabled {
        return Err(ACCESS_OFF.to_owned());
    }
    if !cfg.filesystem.allow_delete {
        return Err(DELETE_OFF.to_owned());
    }
    locate(cfg, raw)
}

/// Why a file of this size is not read, if it is not.
pub open spec fn read_fault(fs: FilesystemSettings, path: Seq<char>, size: u64) -> Option<
    Seq<char>,
> {
    if size > fs.max_read_bytes {
        Some(
            display_text(texts(fs.roots@), path) + " is "@ + decimal(size as nat)
                + " bytes, over the "@ + decimal(fs.max_read_bytes as nat)
                + " byte read limit"@,
        )
    } else {
        None
    }
}

/// Refuses to read a file that is too large, rather than reading part of it.
pub fn check_read(cfg: &Config, path: &str, size: u64) -> (r: Result<(), String>)
    ensures
        match r {
            Ok(()) => read_fault(cfg.filesystem, path@, size) is None,
            Err(e) => read_fault(cfg.filesystem, path@, size) == Some(e@),
        },
{
    let limit: u64 = cfg.filesystem.max_read_bytes as u64;
    if size > limit {
        return Err(
            display(cfg, path).concat(" is ").concat(text::number(size).as_str()).concat(
                " bytes, over the ",
            ).concat(text::number(limit).as_str()).concat(" byte read limit"),
        );
    }
    Ok(())
}

/// Why a path is not written, if it is not.
pub open spec fn write_fault(fs: FilesystemSettings, path: Seq<char>, is_dir: bool) -> Option<
    Seq<char>,
> {
    match protected_name(texts(fs.roots@), texts(fs.protected@), path) {
        Some(name) => Some(name + " is protected and cannot be written"@),
        None => if is_dir {
            Some(display_text(texts(fs.roots@), path) + " is a directory"@)
        } else {
            None
        },
    }
}

/// Refuses to write a protected path or over a directory.
pub fn check_write(cfg: &Config, path: &str, is_dir: bool) -> (r: Result<(), String>)
    ensures
        match r {
            Ok(()) => write_fault(cfg.filesystem, path@, is_dir) is None,
            Err(e) => write_fault(cfg.filesystem, path@, is_dir) == Some(e@),
        },
{
    if let Some(name) = is_protected(cfg, path) {
        return Err(name.concat(" is protected and cannot be written"));
    }
    if is_dir {
        return Err(display(cfg, path).concat(" is a directory"));
    }
    Ok(())
}

/// What is said after a write.
pub open spec fn wrote_text(roots: Seq<Seq<char>>, path: Seq<char>, contents: Seq<char>) -> Seq<
    char,
> {
    "wrote "@ + display_text(roots, path) + " ("@ + decimal(byte_len(contents)) + " bytes)"@
}

/// What is said after a write.
pub fn wrote(cfg: &Config, path: &str, contents: &str) -> (r: String)
    ensures
        r@ == wrote_text(texts(cfg.filesystem.roots@), path@, contents@),
{
    "wrote ".to_owned().concat(display(cfg, path).as_str()).concat(" (").concat(
        text::number(text::bytes_in(contents) as u64).as_str(),
    ).concat(" bytes)")
}

/// What the disk says about a path that is to be deleted.
#[derive(Debug, PartialEq, Eq)]
pub struct Victim {
    /// The path with its symlinks followed, or as it is where there is none.
    pub path: String,
    /// The roots with their symlinks followed.
    pub roots: Vec<String>,
    /// Whether it exists.
    pub exists: bool,
    /// Whether it is a directory.
    pub is_dir: bool,
    /// How many members it has, if it is a directory.
    pub entries: u64,
    /// The names of everything below it, if it is a directory.
    pub names: Vec<String>,
}

/// The first name of a list that is on the protected list.
pub open spec fn protected_among(names: Seq<Seq<char>>, protected: Seq<Seq<char>>) -> Option<
    Seq<char>,
>
    decreases names.len(),
{
    if names.len() == 0 {
        None
    } else if lists(protected, names[0]) {
        Some(names[0])
    } else {
        protected_among(names.skip(1), protected)
    }
}

fn find_among(names: &Vec<String>, protected: &Vec<String>) -> (r: Option<String>)
    ensures
        text_of(r) == protected_among(texts(names@), texts(protected@)),
{
    let ghost all = texts(names@);
    let mut i: usize = 0;
    assert(all.skip(0) =~= all);
    while i < names.len()
        invariant
            i <= names@.len(),
            all == texts(names@),
            protected_among(all.skip(i as int), texts(protected@)) == protected_among(
                all,
                texts(protected@),
            ),
        decreases names@.len() - i,
    {
        assert(all.skip(i as int).skip(1) =~= all.skip(i + 1));
        assert(all[i as int] == names@[i as int]@);
        if is_listed(protected, names[i].as_str()) {
            return Some(names[i].clone());
        }
        i = i + 1;
    }
    None
}

/// Whether a path is one of the roots.
pub open spec fn is_root(path: Seq<char>, roots: Seq<Seq<char>>) -> bool {
    exists|i: int| 0 <= i < roots.len() && parts(#[trigger] roots[i]) == parts(path)
}

/// Why a path is not deleted, if it is not.
pub open spec fn delete_fault(
    fs: FilesystemSettings,
    path: Seq<char>,
    recursive: bool,
    victim: Victim,
) -> Option<Seq<char>> {
    let shown = display_text(texts(fs.roots@), path);
    match protected_name(texts(fs.roots@), texts(fs.protected@), path) {
        Some(name) => Some(name + " is protected and cannot be deleted"@),
        None => if is_root(victim.path@, texts(victim.roots@)) {
            Some("refusing to delete a configured root"@)
        } else if !victim.exists {
            Some(shown + " does not exist"@)
        } else if victim.is_dir && !recursive && victim.entries > 0 {
            Some(
                shown + " is a directory with "@ + decimal(victim.entries as nat)
                    + " entries; pass recursive to delete it"@,
            )
        } else {
            match protected_among(texts(victim.names@), texts(fs.protected@)) {
                Some(name) => Some(name + " is protected and cannot be deleted"@),
                None => None,
            }
        },
    }
}

/// Refuses to delete what is protected or holds something that is, a root, what
/// is not there, or a directory with members unless that was asked for.
pub fn check_delete(cfg: &Config, path: &str, recursive: bool, victim: &Victim) -> (r: Result<
    (),
    String,
>)
    ensures
        match r {
            Ok(()) => delete_fault(cfg.filesystem, path@, recursive, *victim) is None,
            Err(e) => delete_fault(cfg.filesystem, path@, recursive, *victim) == Some(e@),
        },
{
    if let Some(name) = is_protected(cfg, path) {
        return Err(name.concat(" is protected and cannot be deleted"));
    }
    for i in 0..victim.roots.len()
        invariant
            protected_name(
                texts(cfg.filesystem.roots@),
                texts(cfg.filesystem.protected@),
                path@,
            ) is None,
            forall|j: int|
                0 <= j < i ==> parts(#[trigger] texts(victim.roots@)[j]) != parts(victim.path@),
    {
        if paths::same_path(victim.roots[i].as_str(), victim.path.as_str()) {
            assert(parts(texts(victim.roots@)[i as int]) == parts(victim.path@));
            return Err("refusing to delete a configured root".to_owned());
        }
    }
    if !victim.exists {
        return Err(display(cfg, path).concat(" does not exist"));
    }
    if victim.is_dir && !recursive && victim.entries > 0 {
        return Err(
            display(cfg, path).concat(" is a directory with ").concat(
                text::number(victim.entries).as_str(),
            ).concat(" entries; pass recursive to delete it"),
        );
    }
    if let Some(name) = find_among(&victim.names, &cfg.filesystem.protected) {
        return Err(name.concat(" is protected and cannot be deleted"));
    }
    Ok(())
}

/// What is said after a deletion.
pub fn deleted(cfg: &Config, path: &str) -> (r: String)
    ensures
        r@ == "deleted "@ + display_text(texts(cfg.filesystem.roots@), path@),
{
    "deleted ".to_owned().concat(display(cfg, path).as_str())
}

// --- listing ----------------------------------------------------------------

impl Ranked for FsEntry {
    open spec fn precedes(self, other: FsEntry) -> bool {
        (self.is_dir && !other.is_dir) || (self.is_dir == other.is_dir && before(
            self.name@,
            other.name@,
        ))
    }

    proof fn ranks_well(a: FsEntry, b: FsEntry, c: FsEntry) {
        order::lemma_total(a.name@, b.name@);
        order::lemma_total(b.name@, c.name@);
        order::lemma_total(a.name@, c.name@);
        if before(a.name@, c.name@) && before(c.name@, b.name@) {
            order::lemma_transitive(a.name@, c.name@, b.name@);
        }
    }

    fn comes_first(&self, other: &FsEntry) -> (r: bool) {
        (self.is_dir && !other.is_dir) || (self.is_dir == other.is_dir && order::comes_before(
            self.name.as_str(),
            other.name.as_str(),
        ))
    }
}

/// Puts the members of a directory in order: directories first, then by name,
/// the order someone reading a listing expects.
pub fn list_dir(entries: Vec<FsEntry>) -> (r: Vec<FsEntry>)
    ensures
        r@ == order::in_turn(entries@),
        order::ranked(r@),
        r@.to_multiset() == entries@.to_multiset(),
{
    order::rank(entries)
}

// --- laws -------------------------------------------------------------------

/// Only a path that really lies inside one of the roots is ever accepted, and
/// one that does always is.
pub proof fn law_accepted_means_inside(roots: Seq<Seq<char>>, path: Seq<char>, look: Look)
    ensures
        accepted(roots, path, look) is Ok <==> (look.place@ matches PlaceView::Reached(
            base,
            missing,
        ) && missing < parts(path).len() && inside_any(
            probed(path, base, missing),
            texts(look.roots@),
        )),
        accepted(roots, path, look) matches Ok(p) ==> p == path,
{
}

/// A path behind a symlink that leads nowhere is not accepted.
pub proof fn law_a_link_that_leads_nowhere_is_refused(
    roots: Seq<Seq<char>>,
    path: Seq<char>,
    at: Seq<char>,
    missing: usize,
    look: Look,
)
    requires
        sought(at, missing, Seen::Astray) == StepView::Done(look.place@),
    ensures
        accepted(roots, path, look) == Err::<Seq<char>, Seq<char>>(outside_text(path, roots)),
{
}

/// Looking for what exists of a path goes up by one part at a time, so it comes to
/// an end, and what was passed on the way is what is missing.
pub proof fn law_looking_goes_up_part_by_part(path: Seq<char>, at: Seq<char>, missing: usize)
    requires
        paths::is_plain(parts(path)),
        missing < parts(path).len(),
        parts(at) == parts(path).take(parts(path).len() - missing),
    ensures
        match sought(at, missing, Seen::Absent) {
            StepView::Above(next, more) => more == missing + 1 && more < parts(path).len()
                && parts(next) == parts(path).take(parts(path).len() - more),
            StepView::Done(place) => place is Nowhere && (parts(at).len() == 1 || missing
                == usize::MAX),
        },
{
    let all = parts(path);
    let here = parts(at);
    let up = here.drop_last();
    assert(here.len() == all.len() - missing);
    assert(here.last() == all[here.len() - 1]);
    if here.len() > 1 {
        assert(all[here.len() - 1] is Name);
        assert(up[0] == all[0]);
        assert forall|i: int| 1 <= i < up.len() implies (
        #[trigger] up[i] matches PartView::Name(n) && paths::is_simple(n)) by {
            assert(up[i] == all[i]);
        }
        paths::law_written_parts_read_back(up);
        assert(up =~= all.take(all.len() - (missing + 1)));
    } else {
        assert(here.last() == all[0]);
    }
}

/// A located path can be looked for in that way.
pub proof fn law_located_paths_can_be_looked_for(roots: Seq<Seq<char>>, raw: Seq<char>)
    requires
        roots.len() > 0 ==> absolute(roots[0]),
    ensures
        located(roots, raw) matches Ok(p) ==> paths::is_plain(parts(p)),
{
    if located(roots, raw) is Ok {
        let path = meant(raw);
        let full = if absolute(path) {
            path
        } else {
            below(roots[0], path)
        };
        if !absolute(path) {
            paths::lemma_below_is_absolute(roots[0], path);
        }
        paths::law_normal_paths_have_no_detours(full, 0);
        paths::lemma_rooted_shape(full);
    }
}

/// A located path has neither a `.` nor a `..` in it, so that what lies inside a
/// root by its parts cannot step out of it again.
pub proof fn law_located_paths_have_no_detours(roots: Seq<Seq<char>>, raw: Seq<char>, i: int)
    requires
        roots.len() > 0 ==> absolute(roots[0]),
    ensures
        located(roots, raw) matches Ok(p) ==> (0 <= i < parts(p).len() ==> !(parts(p)[i] is Up)
            && !(parts(p)[i] is Here)),
{
    if located(roots, raw) is Ok {
        let path = meant(raw);
        let full = if absolute(path) {
            path
        } else {
            below(roots[0], path)
        };
        if !absolute(path) {
            paths::lemma_below_is_absolute(roots[0], path);
        }
        paths::law_normal_paths_have_no_detours(full, i);
    }
}

/// With access off, nothing is reached and nothing is deleted.
pub proof fn law_off_means_off(fs: FilesystemSettings, raw: Seq<char>)
    requires
        !fs.enabled,
    ensures
        reachable(fs, raw) == Err::<Seq<char>, Seq<char>>(ACCESS_OFF@),
        deletable(fs, raw) == Err::<Seq<char>, Seq<char>>(ACCESS_OFF@),
{
}

/// A root is never deleted, whatever else is asked.
pub proof fn law_roots_are_not_deleted(
    fs: FilesystemSettings,
    path: Seq<char>,
    recursive: bool,
    victim: Victim,
)
    requires
        is_root(victim.path@, texts(victim.roots@)),
    ensures
        delete_fault(fs, path, recursive, victim) is Some,
{
}

/// A path with a protected part is neither written nor deleted.
pub proof fn law_protected_paths_survive(
    fs: FilesystemSettings,
    path: Seq<char>,
    is_dir: bool,
    recursive: bool,
    victim: Victim,
)
    requires
        protected_name(texts(fs.roots@), texts(fs.protected@), path) is Some,
    ensures
        write_fault(fs, path, is_dir) is Some,
        delete_fault(fs, path, recursive, victim) is Some,
{
}

/// What is deleted holds nothing that is protected, however deep below it.
pub proof fn law_nothing_protected_is_deleted_with_a_directory(
    fs: FilesystemSettings,
    path: Seq<char>,
    recursive: bool,
    victim: Victim,
    i: int,
)
    requires
        0 <= i < victim.names@.len(),
        lists(texts(fs.protected@), victim.names@[i]@),
    ensures
        delete_fault(fs, path, recursive, victim) is Some,
{
    assert(texts(victim.names@)[i] == victim.names@[i]@);
    lemma_protected_among(texts(victim.names@), texts(fs.protected@), i);
}

proof fn lemma_protected_among(names: Seq<Seq<char>>, protected: Seq<Seq<char>>, i: int)
    requires
        0 <= i < names.len(),
        lists(protected, names[i]),
    ensures
        protected_among(names, protected) is Some,
    decreases names.len(),
{
    if !lists(protected, names[0]) {
        assert(names.skip(1)[i - 1] == names[i]);
        lemma_protected_among(names.skip(1), protected, i - 1);
    }
}

/// A path with a protected name anywhere below a root is neither written nor
/// deleted, and the message says why.
pub proof fn law_a_protected_name_anywhere_is_refused(
    fs: FilesystemSettings,
    path: Seq<char>,
    is_dir: bool,
    recursive: bool,
    victim: Victim,
    root: int,
    i: int,
)
    requires
        0 <= root < fs.roots@.len(),
        relative(path, fs.roots@[root]@) is Some,
        0 <= i < relative(path, fs.roots@[root]@)->0.len(),
        lists(texts(fs.protected@), part_text(relative(path, fs.roots@[root]@)->0[i])),
    ensures
        write_fault(fs, path, is_dir) matches Some(e) && text::ends(
            e,
            " is protected and cannot be written"@,
        ),
        delete_fault(fs, path, recursive, victim) matches Some(e) && text::ends(
            e,
            " is protected and cannot be deleted"@,
        ),
{
    let roots = texts(fs.roots@);
    let names = texts(fs.protected@);
    assert(roots[root] == fs.roots@[root]@);
    lemma_protected_part(relative(path, roots[root])->0, names, i);
    lemma_protected_name(roots, names, path, root);
    let name = protected_name(roots, names, path)->0;
    let a = name + " is protected and cannot be written"@;
    assert(a.subrange(name.len() as int, a.len() as int) =~= " is protected and cannot be written"@);
    let b = name + " is protected and cannot be deleted"@;
    assert(b.subrange(name.len() as int, b.len() as int) =~= " is protected and cannot be deleted"@);
}

proof fn lemma_protected_part(items: Seq<PartView>, protected: Seq<Seq<char>>, i: int)
    requires
        0 <= i < items.len(),
        lists(protected, part_text(items[i])),
    ensures
        protected_part(items, protected) is Some,
    decreases items.len(),
{
    if !lists(protected, part_text(items[0])) {
        assert(items.skip(1)[i - 1] == items[i]);
        lemma_protected_part(items.skip(1), protected, i - 1);
    }
}

proof fn lemma_protected_name(
    roots: Seq<Seq<char>>,
    protected: Seq<Seq<char>>,
    path: Seq<char>,
    root: int,
)
    requires
        0 <= root < roots.len(),
        relative(path, roots[root]) matches Some(items) && protected_part(items, protected) is Some,
    ensures
        protected_name(roots, protected, path) is Some,
    decreases roots.len(),
{
    if root > 0 {
        assert(roots.skip(1)[root - 1] == roots[root]);
        lemma_protected_name(roots.skip(1), protected, path, root - 1);
    }
}

/// What was written may be read again, as long as it is not over the limit for
/// reading.
pub proof fn law_what_was_written_may_be_read(
    fs: FilesystemSettings,
    path: Seq<char>,
    contents: Seq<char>,
    size: u64,
)
    requires
        size == byte_len(contents),
        byte_len(contents) <= fs.max_read_bytes,
    ensures
        read_fault(fs, path, size) is None,
{
}

/// A name is looked for in the first root, and found there under that name; a path that
/// is absolute is looked for where it says.
pub proof fn law_a_name_is_looked_for_in_the_first_root(roots: Seq<Seq<char>>, name: Seq<char>)
    requires
        roots.len() > 0,
        roots[0].len() > 0,
        paths::is_plain(parts(roots[0])),
        paths::is_simple(name),
        trimmed(name) == name,
    ensures
        located(roots, name) matches Ok(p) && parts(p) == parts(roots[0]).push(
            PartView::Name(name),
        ),
{
    assert(name.len() > 2 ==> name[2] != '/') by {
        if name.len() > 2 {
            assert(name.contains(name[2]));
        }
    }
    assert(!absolute(name)) by {
        assert(name.contains(name[0]));
    }
    paths::lemma_name_below(roots[0], name);
    let all = parts(roots[0]).push(PartView::Name(name));
    assert(paths::is_plain(all)) by {
        assert(all[0] == parts(roots[0])[0]);
        assert forall|i: int| 1 <= i < all.len() implies (#[trigger] all[i] matches PartView::Name(
            n,
        ) && paths::is_simple(n)) by {
            if i < parts(roots[0]).len() {
                assert(all[i] == parts(roots[0])[i]);
            }
        }
    }
    paths::lemma_plain_is_direct(all);
    paths::law_written_parts_read_back(all);
}

/// An absolute path without detours is looked for where it says.
pub proof fn law_an_absolute_path_is_looked_for_where_it_says(
    roots: Seq<Seq<char>>,
    path: Seq<char>,
)
    requires
        roots.len() > 0,
        paths::is_plain(parts(path)),
        absolute(path),
        meant(path) == path,
    ensures
        located(roots, path) matches Ok(p) && parts(p) == parts(path),
{
    paths::lemma_plain_is_direct(parts(path));
    paths::law_written_parts_read_back(parts(path));
}

/// What a path leads to is what the disk says of what exists, with the parts that are
/// not there behind it.
pub proof fn law_what_is_missing_is_put_back(path: Seq<char>, base: Seq<char>, missing: usize)
    requires
        paths::is_plain(parts(path)),
        base.len() > 0,
        missing < parts(path).len(),
    ensures
        parts(probed(path, base, missing)) == parts(base) + parts(path).skip(
            parts(path).len() - missing,
        ),
        missing == 0 ==> probed(path, base, missing) == base,
        sought(path, missing, Seen::Absent) is Done ==> sought(path, missing, Seen::Absent)
            == StepView::Done(PlaceView::Nowhere),
        forall|at: String|
            #[trigger] sought(path, missing, Seen::At(at)) == StepView::Done(
                PlaceView::Reached(at@, missing),
            ),
{
    let all = parts(path);
    let items = all.skip(all.len() - missing);
    assert forall|i: int| 0 <= i < items.len() implies (#[trigger] items[i] matches PartView::Name(n)
        && paths::is_simple(n)) by {
        assert(items[i] == all[all.len() - missing + i]);
    }
    lemma_extended(base, items);
}

proof fn lemma_extended(base: Seq<char>, items: Seq<PartView>)
    requires
        base.len() > 0,
        forall|i: int|
            0 <= i < items.len() ==> (#[trigger] items[i] matches PartView::Name(n)
                && paths::is_simple(n)),
    ensures
        parts(extended(base, items)) == parts(base) + items,
        extended(base, items).len() > 0,
    decreases items.len(),
{
    if items.len() == 0 {
        assert(parts(base) + items =~= parts(base));
    } else {
        let head = items.drop_last();
        assert forall|i: int| 0 <= i < head.len() implies (
        #[trigger] head[i] matches PartView::Name(n) && paths::is_simple(n)) by {
            assert(head[i] == items[i]);
        }
        lemma_extended(base, head);
        let last = items[items.len() - 1];
        assert(last is Name);
        let at = extended(base, head);
        paths::lemma_name_below(at, part_text(last));
        assert(parts(at).push(last) =~= parts(base) + items);
    }
}

/// A path is protected only by a name on it: some part of it below a root is one of the
/// protected names, and that is the name that is given.
pub proof fn law_a_path_is_protected_only_by_a_name(
    roots: Seq<Seq<char>>,
    protected: Seq<Seq<char>>,
    path: Seq<char>,
)
    ensures
        protected_name(roots, protected, path) matches Some(name) ==> lists(protected, name) && (
        exists|r: int, i: int|
            0 <= r < roots.len() && relative(path, roots[r]) is Some && 0 <= i < relative(
                path,
                roots[r],
            )->0.len() && name == #[trigger] part_text(relative(path, #[trigger] roots[r])->0[i])),
    decreases roots.len(),
{
    if roots.len() > 0 {
        let rest = roots.skip(1);
        law_a_path_is_protected_only_by_a_name(rest, protected, path);
        if let Some(items) = relative(path, roots[0]) {
            lemma_protected_by(items, protected);
            if protected_part(items, protected) is Some {
                let i = choose|i: int|
                    0 <= i < items.len() && protected_part(items, protected)->0 == part_text(
                        #[trigger] items[i],
                    );
                assert(part_text(relative(path, roots[0])->0[i]) == protected_part(
                    items,
                    protected,
                )->0);
            }
        }
        let by_rest = match relative(path, roots[0]) {
            Some(items) => protected_part(items, protected) is None,
            None => true,
        };
        if by_rest && protected_name(rest, protected, path) is Some {
            let name = protected_name(rest, protected, path)->0;
            let (r, i) = choose|r: int, i: int|
                0 <= r < rest.len() && relative(path, rest[r]) is Some && 0 <= i < relative(
                    path,
                    rest[r],
                )->0.len() && name == #[trigger] part_text(
                    relative(path, #[trigger] rest[r])->0[i],
                );
            assert(rest[r] == roots[r + 1]);
            assert(name == part_text(relative(path, roots[r + 1])->0[i]));
        }
    }
}

proof fn lemma_protected_by(items: Seq<PartView>, protected: Seq<Seq<char>>)
    ensures
        protected_part(items, protected) matches Some(name) ==> lists(protected, name) && (exists|
            i: int,
        |
            0 <= i < items.len() && name == part_text(#[trigger] items[i])),
    decreases items.len(),
{
    if items.len() > 0 {
        let rest = items.skip(1);
        lemma_protected_by(rest, protected);
        if lists(protected, part_text(items[0])) {
            assert(part_text(items[0]) == protected_part(items, protected)->0);
        } else if protected_part(rest, protected) is Some {
            let name = protected_part(rest, protected)->0;
            let i = choose|i: int| 0 <= i < rest.len() && name == part_text(#[trigger] rest[i]);
            assert(rest[i] == items[i + 1]);
            assert(name == part_text(items[i + 1]));
        }
    }
}

/// What may be done is done: a read is refused only over the limit, a write only where
/// something is protected or a directory stands, and a deletion only of what is
/// protected, a root, absent, or a directory with members that was not meant whole.
pub proof fn law_the_disk_is_refused_only_for_a_reason(
    fs: FilesystemSettings,
    path: Seq<char>,
    size: u64,
    is_dir: bool,
    recursive: bool,
    victim: Victim,
)
    ensures
        read_fault(fs, path, size) is None <==> size <= fs.max_read_bytes,
        write_fault(fs, path, is_dir) is None <==> protected_name(
            texts(fs.roots@),
            texts(fs.protected@),
            path,
        ) is None && !is_dir,
        delete_fault(fs, path, recursive, victim) is None ==> victim.exists && !is_root(
            victim.path@,
            texts(victim.roots@),
        ) && (victim.is_dir && victim.entries > 0 ==> recursive) && protected_name(
            texts(fs.roots@),
            texts(fs.protected@),
            path,
        ) is None,
        delete_fault(fs, path, recursive, victim) is Some ==> !victim.exists || is_root(
            victim.path@,
            texts(victim.roots@),
        ) || (victim.is_dir && victim.entries > 0 && !recursive) || protected_name(
            texts(fs.roots@),
            texts(fs.protected@),
            path,
        ) is Some || (exists|i: int|
            0 <= i < victim.names@.len() && lists(
                texts(fs.protected@),
                (#[trigger] victim.names@[i])@,
            )),
{
    lemma_among(texts(victim.names@), texts(fs.protected@));
    if protected_among(texts(victim.names@), texts(fs.protected@)) is Some {
        let i = choose|i: int|
            0 <= i < texts(victim.names@).len() && lists(
                texts(fs.protected@),
                #[trigger] texts(victim.names@)[i],
            );
        assert(lists(texts(fs.protected@), victim.names@[i]@));
    }
}

proof fn lemma_among(names: Seq<Seq<char>>, protected: Seq<Seq<char>>)
    ensures
        protected_among(names, protected) is Some ==> (exists|i: int|
            0 <= i < names.len() && lists(protected, #[trigger] names[i])),
    decreases names.len(),
{
    if names.len() > 0 {
        let rest = names.skip(1);
        lemma_among(rest, protected);
        if lists(protected, names[0]) {
        } else if protected_among(rest, protected) is Some {
            let i = choose|i: int| 0 <= i < rest.len() && lists(protected, #[trigger] rest[i]);
            assert(rest[i] == names[i + 1]);
            assert(lists(protected, names[i + 1]));
        }
    }
}

/// With access on, every path that says something is looked for; a deletion takes
/// leave to delete as well.
pub proof fn law_on_means_on(fs: FilesystemSettings, raw: Seq<char>)
    requires
        fs.enabled,
        fs.roots@.len() > 0,
        meant(raw).len() > 0,
    ensures
        reachable(fs, raw) is Ok,
        fs.allow_delete ==> deletable(fs, raw) == reachable(fs, raw),
        !fs.allow_delete ==> deletable(fs, raw) is Err,
{
}

/// A path is shown from the first root that holds it, and otherwise as it is.
pub proof fn law_a_path_is_shown_from_its_root(
    roots: Seq<Seq<char>>,
    name: Seq<char>,
    path: Seq<char>,
)
    requires
        roots.len() > 0,
        roots[0].len() > 0,
        paths::is_simple(name),
        !name.contains('\\'),
    ensures
        display_text(roots, below(roots[0], name)) == name,
        !inside_any(path, roots) ==> display_text(roots, path) == path,
{
    paths::lemma_name_below(roots[0], name);
    let p = parts(below(roots[0], name));
    assert(p.skip(parts(roots[0]).len() as int) =~= seq![PartView::Name(name)]);
    let one = seq![PartView::Name(name)];
    assert(one.drop_last() =~= Seq::<PartView>::empty());
    assert(written(one.drop_last()) == Seq::<char>::empty());
    assert(written(one) =~= name);
    reveal_strlit("\\");
    assert("\\"@ =~= seq!['\\']);
    text::law_replacing_goes_by_character(name, name, '\\', "/"@);
    if !inside_any(path, roots) {
        lemma_shown_as_it_is(roots, path);
    }
}

proof fn lemma_shown_as_it_is(roots: Seq<Seq<char>>, path: Seq<char>)
    requires
        !inside_any(path, roots),
    ensures
        display_text(roots, path) == path,
    decreases roots.len(),
{
    if roots.len() > 0 {
        let rest = roots.skip(1);
        assert(!inside(path, roots[0]));
        assert(!inside_any(path, rest)) by {
            assert forall|i: int| 0 <= i < rest.len() implies !inside(path, #[trigger] rest[i]) by {
                assert(rest[i] == roots[i + 1]);
            }
        }
        lemma_shown_as_it_is(rest, path);
    }
}

/// A refusal says what was meant, of which path, and why; and a write says how much it
/// wrote.
pub proof fn law_a_refusal_says_why(
    roots: Seq<Seq<char>>,
    verb: Seq<char>,
    path: Seq<char>,
    e: Seq<char>,
    contents: Seq<char>,
)
    ensures
        text::ends(refused_text(roots, verb, path, e), e),
        text::occurs(refused_text(roots, verb, path, e), verb),
        text::occurs(refused_text(roots, verb, path, e), display_text(roots, path)),
        text::occurs(outside_text(path, roots), path),
        text::occurs(wrote_text(roots, path, contents), display_text(roots, path)),
        text::occurs(wrote_text(roots, path, contents), decimal(byte_len(contents))),
{
    let shown = display_text(roots, path);
    let r = refused_text(roots, verb, path, e);
    assert(r.subrange(r.len() - e.len(), r.len() as int) =~= e);
    text::lemma_occurs_between("cannot "@, verb, " "@ + shown + ": "@ + e);
    assert(r =~= "cannot "@ + verb + (" "@ + shown + ": "@ + e));
    text::lemma_occurs_between("cannot "@ + verb + " "@, shown, ": "@ + e);
    assert(r =~= "cannot "@ + verb + " "@ + shown + (": "@ + e));
    let tail = " is outside the allowed roots ("@ + joined(roots, ", "@) + ")"@;
    text::lemma_occurs_between(Seq::empty(), path, tail);
    assert(outside_text(path, roots) =~= Seq::<char>::empty() + path + tail);
    let n = decimal(byte_len(contents));
    text::lemma_occurs_between("wrote "@, shown, " ("@ + n + " bytes)"@);
    assert(wrote_text(roots, path, contents) =~= "wrote "@ + shown + (" ("@ + n + " bytes)"@));
    text::lemma_occurs_between("wrote "@ + shown + " ("@, n, " bytes)"@);
}

/// A path that starts at a drive is meant from the root, with the drive as the first
/// name; any other is meant as it is written, without the white space round it.
pub proof fn law_a_drive_is_the_first_name(s: Seq<char>)
    ensures
        trimmed(s) == s && s.len() > 2 && paths::has_drive(s) && s[2] == '/' ==> meant(s) == seq![
            '/',
        ] + s,
        !paths::has_drive(trimmed(s)) ==> meant(s) == trimmed(s),
        meant(s).len() > 0 <==> (exists|k: int|
            0 <= k < s.len() && !text::is_white(#[trigger] s[k])),
{
    reveal_strlit("/");
    assert("/"@ =~= seq!['/']);
    text::lemma_blank(s);
    if trimmed(s).len() > 0 {
        let k = choose|k: int| 0 <= k < s.len() && !text::is_white(s[k]);
        assert(!text::is_white(s[k]));
    }
}

} // verus!
