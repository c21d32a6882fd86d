//! Revision history and rollback.
//!
//! Every build that passes validation becomes an immutable revision: the
//! component plus a complete snapshot of the source it came from. Nothing is
//! ever overwritten or deleted, and revision 1 of each slot is pinned, so there
//! is always a floor to fall back to.
//!
//! Each activation also records a system snapshot, the full map of which
//! revision every slot was running, which is what makes "roll the whole system
//! back to how it was ten minutes ago" a single operation.
use vstd::prelude::*;

use crate::config::{revision_dir, Config};
use crate::order;
use crate::order::arranged;
use crate::paths;
use crate::paths::below;
use crate::slot;
use crate::slot::{slot_key, slot_named, Slot, SlotView};
use crate::table::Table;
use crate::text;
use crate::text::{decimal, texts};

verus! {

/// Where a revision stands.
#[derive(Debug, Clone, Copy, PartialEq, Eq, Structural)]
pub enum Status {
    /// Built and validated, not yet activated.
    Candidate,
    /// Currently running.
    Active,
    /// Ran successfully before; the target a rollback aims for.
    KnownGood,
    /// Was active, then rolled away from.
    RolledBack,
    /// Failed badly enough that it was taken out of service.
    Disabled,
}

/// The word for a status.
pub open spec fn status_word(s: Status) -> Seq<char> {
    match s {
        Status::Candidate => "candidate"@,
        Status::Active => "active"@,
        Status::KnownGood => "known-good"@,
        Status::RolledBack => "rolled-back"@,
        Status::Disabled => "disabled"@,
    }
}

impl Status {
    /// The word for a status.
    pub fn label(&self) -> (r: &'static str)
        ensures
            r@ == status_word(*self),
    {
        match self {
            Status::Candidate => "candidate",
            Status::Active => "active",
            Status::KnownGood => "known-good",
            Status::RolledBack => "rolled-back",
            Status::Disabled => "disabled",
        }
    }
}

/// Who made a revision.
#[derive(Debug, Clone, Copy, PartialEq, Eq, Structural)]
pub enum Origin {
    /// The first revision built at startup.
    Bootstrap,
    /// A human edited the source on disk.
    HumanEdit,
    /// The agent rewrote it through the dev kit.
    AgentMod,
    /// Produced by restoring an earlier revision.
    Rollback,
}

/// The word for an origin.
pub open spec fn origin_word(o: Origin) -> Seq<char> {
    match o {
        Origin::Bootstrap => "bootstrap"@,
        Origin::HumanEdit => "human-edit"@,
        Origin::AgentMod => "agent-mod"@,
        Origin::Rollback => "rollback"@,
    }
}

impl Origin {
    /// The word for an origin.
    pub fn label(&self) -> (r: &'static str)
        ensures
            r@ == origin_word(*self),
    {
        match self {
            Origin::Bootstrap => "bootstrap",
            Origin::HumanEdit => "human-edit",
            Origin::AgentMod => "agent-mod",
            Origin::Rollback => "rollback",
        }
    }
}

/// One revision of a slot.
#[derive(Debug, PartialEq, Eq)]
pub struct RevisionRow {
    /// The slot's key.
    pub slot: String,
    /// The revision.
    pub revision: u64,
    /// Where it stands.
    pub status: Status,
    /// Who made it.
    pub origin: Origin,
    /// What was noted when it was made.
    pub note: String,
    /// When it was made.
    pub created_ms: u64,
    /// The fingerprint of its component.
    pub hash: String,
}

/// What a revision's row says.
pub struct RowView {
    /// The slot's key.
    pub slot: Seq<char>,
    /// The revision.
    pub revision: u64,
    /// Where it stands.
    pub status: Status,
    /// Who made it.
    pub origin: Origin,
    /// What was noted when it was made.
    pub note: Seq<char>,
    /// When it was made.
    pub created_ms: u64,
    /// The fingerprint of its component.
    pub hash: Seq<char>,
}

impl View for RevisionRow {
    type V = RowView;

    open spec fn view(&self) -> RowView {
        RowView {
            slot: self.slot@,
            revision: self.revision,
            status: self.status,
            origin: self.origin,
            note: self.note@,
            created_ms: self.created_ms,
            hash: self.hash@,
        }
    }
}

impl Clone for RevisionRow {
    fn clone(&self) -> (r: RevisionRow)
        ensures
            r@ == self@,
    {
        RevisionRow {
            slot: self.slot.clone(),
            revision: self.revision,
            status: self.status,
            origin: self.origin,
            note: self.note.clone(),
            created_ms: self.created_ms,
            hash: self.hash.clone(),
        }
    }
}

/// What each row of a list says.
pub open spec fn row_views(rows: Seq<RevisionRow>) -> Seq<RowView> {
    rows.map_values(|r: RevisionRow| r@)
}

/// What an optional row says.
pub open spec fn row_of(row: Option<RevisionRow>) -> Option<RowView> {
    match row {
        Some(r) => Some(r@),
        None => None,
    }
}

/// Which revision every slot was running at one moment.
pub struct SystemSnapshot {
    /// Its id.
    pub id: u64,
    /// When it was taken.
    pub created_ms: u64,
    /// What changed.
    pub cause: String,
    /// The active revision of each slot, by the slot's key.
    pub slots: Table<u64>,
}

/// What a snapshot says.
#[verifier::ext_equal]
pub struct SnapshotView {
    /// Its id.
    pub id: u64,
    /// When it was taken.
    pub created_ms: u64,
    /// What changed.
    pub cause: Seq<char>,
    /// The active revision of each slot, by the slot's key.
    pub slots: Map<Seq<char>, u64>,
}

impl View for SystemSnapshot {
    type V = SnapshotView;

    open spec fn view(&self) -> SnapshotView {
        SnapshotView {
            id: self.id,
            created_ms: self.created_ms,
            cause: self.cause@,
            slots: self.slots@,
        }
    }
}

/// What each snapshot of a list says.
pub open spec fn snapshot_views(items: Seq<SystemSnapshot>) -> Seq<SnapshotView> {
    items.map_values(|s: SystemSnapshot| s@)
}

// --- fingerprints -----------------------------------------------------------

/// The SHA-256 digest of some bytes.
pub uninterp spec fn digest(bytes: Seq<u8>) -> Seq<u8>;

/// `sha2::Sha256::digest`: the digest of the bytes, which is 32 bytes long.
#[verifier::external_body]
fn sha256(bytes: &Vec<u8>) -> (r: Vec<u8>)
    ensures
        r@ == digest(bytes@),
        r@.len() == 32,
{
    <sha2::Sha256 as sha2::Digest>::digest(bytes).to_vec()
}

/// The hexadecimal digit that stands for a number below sixteen.
pub open spec fn hex_digit(n: int) -> char {
    "0123456789abcdef"@[n]
}

/// Bytes in lower-case hexadecimal, two digits each.
pub open spec fn hex_text(bytes: Seq<u8>) -> Seq<char> {
    Seq::new(
        2 * bytes.len(),
        |i: int|
            if i % 2 == 0 {
                hex_digit(bytes[i / 2] as int / 16)
            } else {
                hex_digit(bytes[i / 2] as int % 16)
            },
    )
}

/// `hex::encode`: the bytes in lower-case hexadecimal, two digits each.
#[verifier::external_body]
fn hex_encode(bytes: &Vec<u8>) -> (r: String)
    requires
        bytes@.len() <= 1024,
    ensures
        r@ == hex_text(bytes@),
{
    hex::encode(bytes)
}

/// The first eight bytes of a digest in hexadecimal.
pub fn short_hash(full: &Vec<u8>) -> (r: String)
    requires
        full@.len() >= 8,
    ensures
        r@ == hex_text(full@.take(8)),
{
    let mut head: Vec<u8> = Vec::new();
    for i in 0..8usize
        invariant
            full@.len() >= 8,
            head@ == full@.take(i as int),
    {
        head.push(full[i]);
        assert(head@ =~= full@.take(i + 1));
    }
    hex_encode(&head)
}

/// Fingerprint of a freshly built component, for comparison against what is
/// already recorded.
pub fn fingerprint(bytes: &Vec<u8>) -> (r: String)
    ensures
        r@ == hex_text(digest(bytes@).take(8)),
{
    short_hash(&sha256(bytes))
}

// --- one slot's history -----------------------------------------------------

/// Whether a member of a source tree stays where it is when the tree is copied
/// or replaced. Build output is reproducible and enormous, so it is never part
/// of a snapshot, and a rollback does not throw the build cache away.
pub open spec fn stays(name: Seq<char>) -> bool {
    name == "target"@ || name == ".git"@
}

/// Whether a member of a source tree stays where it is when the tree is copied
/// or replaced.
pub fn stays_in_place(name: &str) -> (r: bool)
    ensures
        r == stays(name@),
{
    text::same(name, "target") || text::same(name, ".git")
}

/// The members of a directory that do not stay: those that a copy takes along, and
/// those that have to go before another tree takes the place of this one.
pub open spec fn movable(names: Seq<Seq<char>>) -> Seq<Seq<char>>
    decreases names.len(),
{
    if names.len() == 0 {
        Seq::empty()
    } else if stays(names.last()) {
        movable(names.drop_last())
    } else {
        movable(names.drop_last()).push(names.last())
    }
}

/// The members of a directory that do not stay.
pub fn members_to_move(names: &Vec<String>) -> (r: Vec<String>)
    ensures
        texts(r@) == movable(texts(names@)),
{
    let ghost all = texts(names@);
    let mut out: Vec<String> = Vec::new();
    assert(all.take(0) =~= Seq::<Seq<char>>::empty());
    assert(texts(out@) =~= Seq::<Seq<char>>::empty());
    for i in 0..names.len()
        invariant
            all == texts(names@),
            texts(out@) == movable(all.take(i as int)),
    {
        let ghost had = out@;
        proof {
            assert(all.take(i + 1).drop_last() =~= all.take(i as int));
            assert(all.take(i + 1).last() == names@[i as int]@);
        }
        if !stays_in_place(names[i].as_str()) {
            let name = names[i].clone();
            out.push(name);
            proof {
                text::lemma_texts_push(had, name);
            }
        }
    }
    assert(all.take(names@.len() as int) =~= all);
    out
}

/// Whether a file is part of a copy of its tree: nothing on the way to it stays.
pub open spec fn carried(path: Seq<Seq<char>>) -> bool {
    forall|i: int| 0 <= i < path.len() ==> !stays(#[trigger] path[i])
}

/// The files of a tree, by the names that lead to them, once another has been
/// copied over it.
pub open spec fn copied(
    from: Map<Seq<Seq<char>>, Seq<u8>>,
    to: Map<Seq<Seq<char>>, Seq<u8>>,
) -> Map<Seq<Seq<char>>, Seq<u8>> {
    Map::new(
        |p: Seq<Seq<char>>| to.contains_key(p) || (from.contains_key(p) && carried(p)),
        |p: Seq<Seq<char>>|
            if from.contains_key(p) && carried(p) {
                from[p]
            } else {
                to[p]
            },
    )
}

/// The files of a tree once every member that does not stay has gone.
pub open spec fn cleared(tree: Map<Seq<Seq<char>>, Seq<u8>>) -> Map<Seq<Seq<char>>, Seq<u8>> {
    Map::new(
        |p: Seq<Seq<char>>| tree.contains_key(p) && p.len() > 0 && stays(p[0]),
        |p: Seq<Seq<char>>| tree[p],
    )
}

/// The files of a tree once another has taken its place.
pub open spec fn replaced_by(
    tree: Map<Seq<Seq<char>>, Seq<u8>>,
    from: Map<Seq<Seq<char>>, Seq<u8>>,
) -> Map<Seq<Seq<char>>, Seq<u8>> {
    copied(from, cleared(tree))
}

/// A history after a revision is promoted: it is active, and whatever was
/// active before has actually run, so it is the best rollback target there is.
pub open spec fn promoted(rows: Seq<RowView>, revision: u64) -> Seq<RowView> {
    rows.map_values(
        |r: RowView|
            if r.revision == revision {
                RowView { status: Status::Active, ..r }
            } else if r.status is Active {
                RowView { status: Status::KnownGood, ..r }
            } else {
                r
            },
    )
}

/// A history with a revision's status changed.
pub open spec fn marked(rows: Seq<RowView>, revision: u64, status: Status) -> Seq<RowView> {
    rows.map_values(
        |r: RowView|
            if r.revision == revision {
                RowView { status, ..r }
            } else {
                r
            },
    )
}

/// The active row of a history, the first if there are several.
pub open spec fn active_row(rows: Seq<RowView>) -> Option<RowView>
    decreases rows.len(),
{
    if rows.len() == 0 {
        None
    } else if rows[0].status is Active {
        Some(rows[0])
    } else {
        active_row(rows.skip(1))
    }
}

/// The row of a revision.
pub open spec fn row_at(rows: Seq<RowView>, revision: u64) -> Option<RowView>
    decreases rows.len(),
{
    if rows.len() == 0 {
        None
    } else if rows[0].revision == revision {
        Some(rows[0])
    } else {
        row_at(rows.skip(1), revision)
    }
}

/// The last row that is known to have worked.
pub open spec fn last_good_row(rows: Seq<RowView>) -> Option<RowView>
    decreases rows.len(),
{
    if rows.len() == 0 {
        None
    } else if rows.last().status is KnownGood {
        Some(rows.last())
    } else {
        last_good_row(rows.drop_last())
    }
}

/// The revision a rollback should target when none is named: the most recent
/// one that is known to have worked; where nothing has been demoted yet, the
/// pinned first revision, unless that is the one running.
pub open spec fn fallback_row(rows: Seq<RowView>) -> Option<RowView> {
    match last_good_row(rows) {
        Some(r) => Some(r),
        None => if rows.len() > 0 && !(rows[0].status is Active) {
            Some(rows[0])
        } else {
            None
        },
    }
}

/// Whether a history numbers its revisions from one up, without a gap, and all
/// under one key.
pub open spec fn numbered(rows: Seq<RowView>, key: Seq<char>) -> bool {
    forall|i: int|
        0 <= i < rows.len() ==> (#[trigger] rows[i]).revision == i + 1 && rows[i].slot == key
}

fn copy_rows(rows: &Vec<RevisionRow>) -> (r: Vec<RevisionRow>)
    ensures
        row_views(r@) == row_views(rows@),
{
    let mut out: Vec<RevisionRow> = Vec::new();
    let ghost all = row_views(rows@);
    assert(row_views(out@) =~= all.take(0));
    for i in 0..rows.len()
        invariant
            all == row_views(rows@),
            row_views(out@) == all.take(i as int),
    {
        let ghost had = out@;
        let row = rows[i].clone();
        out.push(row);
        assert(row_views(out@) =~= row_views(had).push(row@));
        assert(all.take(i + 1) =~= all.take(i as int).push(all[i as int]));
    }
    assert(all.take(rows@.len() as int) =~= all);
    out
}

/// The active row of a history.
pub fn find_active(rows: &Vec<RevisionRow>) -> (r: Option<RevisionRow>)
    ensures
        row_of(r) == active_row(row_views(rows@)),
{
    let ghost all = row_views(rows@);
    let mut i: usize = 0;
    assert(all.skip(0) =~= all);
    while i < rows.len()
        invariant
            i <= rows@.len(),
            all == row_views(rows@),
            active_row(all.skip(i as int)) == active_row(all),
        decreases rows@.len() - i,
    {
        assert(all.skip(i as int).skip(1) =~= all.skip(i + 1));
        assert(all[i as int] == rows@[i as int]@);
        if rows[i].status == Status::Active {
            return Some(rows[i].clone());
        }
        i = i + 1;
    }
    None
}

/// The row of a revision.
pub fn find_row(rows: &Vec<RevisionRow>, revision: u64) -> (r: Option<RevisionRow>)
    ensures
        row_of(r) == row_at(row_views(rows@), revision),
{
    let ghost all = row_views(rows@);
    let mut i: usize = 0;
    assert(all.skip(0) =~= all);
    while i < rows.len()
        invariant
            i <= rows@.len(),
            all == row_views(rows@),
            row_at(all.skip(i as int), revision) == row_at(all, revision),
        decreases rows@.len() - i,
    {
        assert(all.skip(i as int).skip(1) =~= all.skip(i + 1));
        assert(all[i as int] == rows@[i as int]@);
        if rows[i].revision == revision {
            return Some(rows[i].clone());
        }
        i = i + 1;
    }
    None
}

/// The revision a rollback should target when none is named.
pub fn find_fallback(rows: &Vec<RevisionRow>) -> (r: Option<RevisionRow>)
    ensures
        row_of(r) == fallback_row(row_views(rows@)),
{
    let ghost all = row_views(rows@);
    let mut i: usize = rows.len();
    assert(all.take(i as int) =~= all);
    while i > 0
        invariant
            i <= rows@.len(),
            all == row_views(rows@),
            last_good_row(all.take(i as int)) == last_good_row(all),
        decreases i,
    {
        i = i - 1;
        proof {
            assert(all.take(i + 1).drop_last() =~= all.take(i as int));
            assert(all.take(i + 1).last() == rows@[i as int]@);
        }
        if rows[i].status == Status::KnownGood {
            return Some(rows[i].clone());
        }
    }
    if rows.len() > 0 && rows[0].status != Status::Active {
        assert(all[0] == rows@[0]@);
        return Some(rows[0].clone());
    }
    assert(rows@.len() > 0 ==> all[0] == rows@[0]@);
    None
}

fn promote(rows: Vec<RevisionRow>, revision: u64) -> (r: Vec<RevisionRow>)
    ensures
        row_views(r@) == promoted(row_views(rows@), revision),
{
    let ghost all = row_views(rows@);
    let ghost goal = promoted(all, revision);
    let mut out = rows;
    let n: usize = out.len();
    let mut i: usize = 0;
    while i < n
        invariant
            i <= n == out@.len() == all.len(),
            goal == promoted(all, revision),
            forall|j: int| 0 <= j < i ==> #[trigger] row_views(out@)[j] == goal[j],
            forall|j: int| i <= j < n ==> #[trigger] row_views(out@)[j] == all[j],
        decreases n - i,
    {
        let ghost had = out@;
        assert(row_views(had)[i as int] == all[i as int]);
        let mut row = out[i].clone();
        if row.revision == revision {
            row.status = Status::Active;
        } else if row.status == Status::Active {
            row.status = Status::KnownGood;
        }
        let ghost v = row@;
        out.set(i, row);
        proof {
            assert(v == goal[i as int]);
            assert forall|j: int| 0 <= j < i + 1 implies #[trigger] row_views(out@)[j]
                == goal[j] by {
                if j < i {
                    assert(row_views(had)[j] == goal[j]);
                }
            }
            assert forall|j: int| i + 1 <= j < n implies #[trigger] row_views(out@)[j]
                == all[j] by {
                assert(row_views(had)[j] == all[j]);
            }
        }
        i = i + 1;
    }
    assert(row_views(out@) =~= goal);
    out
}

fn mark_row(rows: Vec<RevisionRow>, revision: u64, status: Status) -> (r: Vec<RevisionRow>)
    ensures
        row_views(r@) == marked(row_views(rows@), revision, status),
{
    let ghost all = row_views(rows@);
    let ghost goal = marked(all, revision, status);
    let mut out = rows;
    let n: usize = out.len();
    let mut i: usize = 0;
    while i < n
        invariant
            i <= n == out@.len() == all.len(),
            goal == marked(all, revision, status),
            forall|j: int| 0 <= j < i ==> #[trigger] row_views(out@)[j] == goal[j],
            forall|j: int| i <= j < n ==> #[trigger] row_views(out@)[j] == all[j],
        decreases n - i,
    {
        let ghost had = out@;
        assert(row_views(had)[i as int] == all[i as int]);
        let mut row = out[i].clone();
        if row.revision == revision {
            row.status = status;
        }
        let ghost v = row@;
        out.set(i, row);
        proof {
            assert(v == goal[i as int]);
            assert forall|j: int| 0 <= j < i + 1 implies #[trigger] row_views(out@)[j]
                == goal[j] by {
                if j < i {
                    assert(row_views(had)[j] == goal[j]);
                }
            }
            assert forall|j: int| i + 1 <= j < n implies #[trigger] row_views(out@)[j]
                == all[j] by {
                assert(row_views(had)[j] == all[j]);
            }
        }
        i = i + 1;
    }
    assert(row_views(out@) =~= goal);
    out
}

// --- laws of one history ----------------------------------------------------

/// A revision of a numbered history is found at its number.
pub proof fn lemma_numbered(rows: Seq<RowView>, key: Seq<char>, revision: u64)
    requires
        numbered(rows, key),
    ensures
        row_at(rows, revision) == if 1 <= revision <= rows.len() {
            Some(rows[revision - 1])
        } else {
            None
        },
{
    lemma_row_at(rows, 0, revision);
}

proof fn lemma_row_at(rows: Seq<RowView>, from: int, revision: u64)
    requires
        from >= 0,
        forall|i: int| 0 <= i < rows.len() ==> (#[trigger] rows[i]).revision == from + i + 1,
    ensures
        row_at(rows, revision) == if from + 1 <= revision <= from + rows.len() {
            Some(rows[revision - 1 - from])
        } else {
            None
        },
    decreases rows.len(),
{
    if rows.len() > 0 {
        assert(rows[0].revision == from + 1);
        let rest = rows.skip(1);
        assert forall|i: int| 0 <= i < rest.len() implies (#[trigger] rest[i]).revision == (from
            + 1) + i + 1 by {
            assert(rest[i] == rows[i + 1]);
        }
        lemma_row_at(rest, from + 1, revision);
    }
}

/// After a promotion, exactly the promoted revision is active, if it is in the
/// history; whatever was active before is known good, and every other row is
/// as it was.
pub proof fn law_promotion(rows: Seq<RowView>, key: Seq<char>, revision: u64, i: int)
    requires
        numbered(rows, key),
        0 <= i < rows.len(),
    ensures
        (promoted(rows, revision)[i].status is Active) <==> i + 1 == revision,
        i + 1 != revision && rows[i].status is Active
            ==> promoted(rows, revision)[i].status is KnownGood,
        i + 1 != revision && !(rows[i].status is Active)
            ==> promoted(rows, revision)[i] == rows[i],
        numbered(promoted(rows, revision), key),
{
    let after = promoted(rows, revision);
    assert(rows[i].revision == i + 1);
    assert forall|j: int| 0 <= j < after.len() implies (#[trigger] after[j]).revision == j + 1
        && after[j].slot == key by {
        assert(rows[j].revision == j + 1);
    }
}

/// After a promotion the promoted revision is the one found active.
pub proof fn law_the_promoted_revision_is_active(
    rows: Seq<RowView>,
    key: Seq<char>,
    revision: u64,
)
    requires
        numbered(rows, key),
        1 <= revision <= rows.len(),
    ensures
        active_row(promoted(rows, revision)) matches Some(r) && r.revision == revision,
{
    let after = promoted(rows, revision);
    assert forall|i: int| 0 <= i < after.len() implies ((#[trigger] after[i]).status is Active)
        == (i + 1 == revision) && after[i].revision == i + 1 by {
        law_promotion(rows, key, revision, i);
        assert(rows[i].revision == i + 1);
    }
    lemma_only_active(after, revision - 1);
}

/// A history with one active revision: it is the one found active.
pub proof fn lemma_only_active(rows: Seq<RowView>, at: int)
    requires
        0 <= at < rows.len(),
        forall|i: int| 0 <= i < rows.len() ==> ((#[trigger] rows[i]).status is Active) == (i == at),
    ensures
        active_row(rows) == Some(rows[at]),
    decreases rows.len(),
{
    assert((rows[0].status is Active) == (0 == at));
    if at > 0 {
        let rest = rows.skip(1);
        assert forall|i: int| 0 <= i < rest.len() implies ((#[trigger] rest[i]).status is Active)
            == (i == at - 1) by {
            assert(rest[i] == rows[i + 1]);
        }
        lemma_only_active(rest, at - 1);
    }
}

// --- the whole book ---------------------------------------------------------

/// The histories of all slots, and the snapshots taken.
pub struct Revisions {
    rows: Table<Vec<RevisionRow>>,
    snapshots: Vec<SystemSnapshot>,
}

/// What the book says.
#[verifier::ext_equal]
pub struct BookView {
    /// The history of each slot, by the slot's key.
    pub rows: Map<Seq<char>, Seq<RowView>>,
    /// The snapshots, oldest first.
    pub snapshots: Seq<SnapshotView>,
}

impl BookView {
    /// The history under a key.
    pub open spec fn history(self, key: Seq<char>) -> Seq<RowView> {
        if self.rows.contains_key(key) {
            self.rows[key]
        } else {
            Seq::empty()
        }
    }

    /// The active revision of every slot on the shelf that has one.
    pub open spec fn running(self, shelf: Shelf) -> Map<Seq<char>, u64> {
        Map::new(
            |key: Seq<char>|
                shelf_keys(shelf).contains(key) && slot_named(key) is Some && active_row(
                    self.history(key),
                ) is Some,
            |key: Seq<char>| active_row(self.history(key))->0.revision,
        )
    }

    /// Whether every history is numbered from one up, and so are the snapshots.
    pub open spec fn ok(self) -> bool {
        &&& forall|key: Seq<char>| #[trigger]
            self.rows.contains_key(key) ==> numbered(self.rows[key], key)
        &&& forall|i: int|
            0 <= i < self.snapshots.len() ==> (#[trigger] self.snapshots[i]).id == i + 1
    }

    /// The book after a build is recorded.
    pub open spec fn recorded(self, row: RowView) -> BookView {
        BookView { rows: self.rows.insert(row.slot, self.history(row.slot).push(row)), ..self }
    }

    /// The book after a snapshot is taken.
    pub open spec fn snapped(self, shelf: Shelf, cause: Seq<char>, now: u64) -> BookView {
        BookView {
            snapshots: self.snapshots.push(
                SnapshotView {
                    id: (self.snapshots.len() + 1) as u64,
                    created_ms: now,
                    cause,
                    slots: self.running(shelf),
                },
            ),
            ..self
        }
    }

    /// The book after a revision is promoted, before the snapshot.
    pub open spec fn promoted(self, key: Seq<char>, revision: u64) -> BookView {
        if self.rows.contains_key(key) {
            BookView { rows: self.rows.insert(key, promoted(self.rows[key], revision)), ..self }
        } else {
            self
        }
    }

    /// The book after a revision's status is changed.
    pub open spec fn marked(self, key: Seq<char>, revision: u64, status: Status) -> BookView {
        BookView { rows: self.rows.insert(key, marked(self.rows[key], revision, status)), ..self }
    }
}

/// What stands on the shelf of artifacts, by the names of the directories.
#[derive(Debug)]
pub struct Shelf {
    /// Whether the agent has one.
    pub agent: bool,
    /// The gateways that have one.
    pub gateways: Vec<String>,
    /// The tools that have one.
    pub tools: Vec<String>,
}

/// A text in front of each of these.
pub open spec fn keyed(front: Seq<char>, names: Seq<Seq<char>>) -> Seq<Seq<char>> {
    names.map_values(|n: Seq<char>| front + n)
}

/// The keys of what stands on the shelf.
pub open spec fn shelf_keys(shelf: Shelf) -> Seq<Seq<char>> {
    (if shelf.agent {
        seq!["agent"@]
    } else {
        Seq::empty()
    }) + keyed("gateway/"@, texts(shelf.gateways@)) + keyed("tool/"@, texts(shelf.tools@))
}

fn append_keys(out: &mut Vec<String>, front: &str, names: &Vec<String>)
    ensures
        texts(final(out)@) == texts(old(out)@) + keyed(front@, texts(names@)),
{
    let ghost had = texts(out@);
    let ghost all = keyed(front@, texts(names@));
    assert(texts(out@) =~= had + all.take(0));
    for i in 0..names.len()
        invariant
            all == keyed(front@, texts(names@)),
            texts(out@) == had + all.take(i as int),
    {
        let ghost was = out@;
        let key = front.to_owned().concat(names[i].as_str());
        let ghost k = key@;
        out.push(key);
        proof {
            assert(all[i as int] == k);
            assert(texts(out@) =~= texts(was).push(k));
            assert(had + all.take(i + 1) =~= (had + all.take(i as int)).push(k));
        }
    }
    assert(all.take(names@.len() as int) =~= all);
}

/// The keys of what stands on the shelf, in order.
pub fn known_slot_keys(shelf: &Shelf) -> (r: Vec<String>)
    ensures
        texts(r@) == arranged(shelf_keys(*shelf)),
{
    let mut keys: Vec<String> = Vec::new();
    assert(texts(keys@) =~= Seq::<Seq<char>>::empty());
    if shelf.agent {
        keys.push("agent".to_owned());
        assert(texts(keys@) =~= seq!["agent"@]);
    }
    append_keys(&mut keys, "gateway/", &shelf.gateways);
    append_keys(&mut keys, "tool/", &shelf.tools);
    order::sort(&mut keys);
    keys
}

/// The slots a list of keys names.
pub open spec fn slots_named(keys: Seq<Seq<char>>) -> Seq<SlotView>
    decreases keys.len(),
{
    if keys.len() == 0 {
        Seq::empty()
    } else {
        match slot_named(keys.last()) {
            Some(s) => slots_named(keys.drop_last()).push(s),
            None => slots_named(keys.drop_last()),
        }
    }
}

/// The slots of a list, as text.
pub open spec fn slot_views(slots: Seq<Slot>) -> Seq<SlotView> {
    slots.map_values(|s: Slot| s@)
}

spec fn histories(m: Map<Seq<char>, Vec<RevisionRow>>) -> Map<Seq<char>, Seq<RowView>> {
    m.map_values(|rows: Vec<RevisionRow>| row_views(rows@))
}

impl View for Revisions {
    type V = BookView;

    closed spec fn view(&self) -> BookView {
        BookView {
            rows: histories(self.rows@),
            snapshots: snapshot_views(self.snapshots@),
        }
    }
}

impl Revisions {
    #[verifier::type_invariant]
    spec fn well_formed(self) -> bool {
        self@.ok()
    }

    /// An empty book.
    pub fn new() -> (r: Revisions)
        ensures
            r@.rows == Map::<Seq<char>, Seq<RowView>>::empty(),
            r@.snapshots == Seq::<SnapshotView>::empty(),
    {
        let rows: Table<Vec<RevisionRow>> = Table::new();
        let snapshots: Vec<SystemSnapshot> = Vec::new();
        assert(histories(rows@) =~= Map::<Seq<char>, Seq<RowView>>::empty());
        assert(snapshot_views(snapshots@) =~= Seq::<SnapshotView>::empty());
        Revisions { rows, snapshots }
    }

    // --- artifact layout ----------------------------------------------------

    /// The directory of a revision.
    pub fn artifact_dir(&self, cfg: &Config, slot: &Slot, revision: u64) -> (r: String)
        ensures
            r@ == revision_dir(cfg.paths, slot@, revision),
    {
        cfg.slot_artifact_dir(slot, revision)
    }

    /// The component of a revision.
    pub fn component_path(&self, cfg: &Config, slot: &Slot, revision: u64) -> (r: String)
        ensures
            r@ == below(revision_dir(cfg.paths, slot@, revision), "component.wasm"@),
    {
        paths::join(self.artifact_dir(cfg, slot, revision).as_str(), "component.wasm")
    }

    /// The source snapshot of a revision.
    pub fn source_dir(&self, cfg: &Config, slot: &Slot, revision: u64) -> (r: String)
        ensures
            r@ == below(revision_dir(cfg.paths, slot@, revision), "src-snapshot"@),
    {
        paths::join(self.artifact_dir(cfg, slot, revision).as_str(), "src-snapshot")
    }

    // --- recording ----------------------------------------------------------

    /// The number the next revision of a slot will have.
    pub fn next_revision(&self, slot: &Slot) -> (r: u64)
        requires
            self@.history(slot_key(slot@)).len() < u64::MAX,
        ensures
            r == self@.history(slot_key(slot@)).len() + 1,
    {
        match self.rows.get(slot.key().as_str()) {
            Some(rows) => {
                assert(row_views(rows@).len() == rows@.len());
                rows.len() as u64 + 1
            },
            None => 1,
        }
    }

    /// Freezes a successful build into a new revision.
    pub fn record(
        &mut self,
        slot: &Slot,
        origin: Origin,
        note: &str,
        hash: &str,
        now: u64,
    ) -> (row: RevisionRow)
        requires
            old(self)@.history(slot_key(slot@)).len() < u64::MAX,
        ensures
            row@ == (RowView {
                slot: slot_key(slot@),
                revision: (old(self)@.history(slot_key(slot@)).len() + 1) as u64,
                status: Status::Candidate,
                origin,
                note: note@,
                created_ms: now,
                hash: hash@,
            }),
            final(self)@ == old(self)@.recorded(row@),
    {
        proof {
            use_type_invariant(&*self);
        }
        let ghost book = self@;
        let revision: u64 = self.next_revision(slot);
        let key = slot.key();
        let row = RevisionRow {
            slot: key.clone(),
            revision,
            status: Status::Candidate,
            origin,
            note: note.to_owned(),
            created_ms: now,
            hash: hash.to_owned(),
        };
        let mut rows: Table<Vec<RevisionRow>> = Table::new();
        assert(histories(rows@) =~= Map::<Seq<char>, Seq<RowView>>::empty());
        assert(BookView { rows: histories(rows@), snapshots: book.snapshots }.ok());
        std::mem::swap(&mut rows, &mut self.rows);
        let ghost was = rows@;
        let mut list = match rows.remove(key.as_str()) {
            Some(list) => list,
            None => {
                let none: Vec<RevisionRow> = Vec::new();
                assert(row_views(none@) =~= Seq::<RowView>::empty());
                none
            },
        };
        let ghost before = list@;
        let kept = row.clone();
        list.push(kept);
        assert(row_views(list@) =~= row_views(before).push(row@));
        let ghost after = list;
        let ghost k = key@;
        let _old = rows.insert(key, list);
        proof {
            assert(book.history(k) == row_views(before));
            assert(histories(rows@) =~= book.rows.insert(k, book.history(k).push(row@)));
            let now_rows = histories(rows@);
            assert forall|other: Seq<char>| #[trigger] now_rows.contains_key(other) implies numbered(
                now_rows[other],
                other,
            ) by {
                if other != k {
                    assert(book.rows.contains_key(other));
                } else if book.rows.contains_key(k) {
                    assert(numbered(book.rows[k], k));
                }
            }
        }
        assert(BookView { rows: histories(rows@), snapshots: book.snapshots }.ok());
        self.rows = rows;
        row
    }

    /// Promotes a revision to active, demoting whatever was active before to
    /// known-good, then records a system snapshot.
    pub fn activate(&mut self, slot: &Slot, revision: u64, shelf: &Shelf, cause: &str, now: u64)
        requires
            old(self)@.snapshots.len() < u64::MAX,
        ensures
            final(self)@ == old(self)@.promoted(slot_key(slot@), revision).snapped(
                *shelf,
                cause@,
                now,
            ),
    {
        proof {
            use_type_invariant(&*self);
        }
        let ghost book = self@;
        let key = slot.key();
        let mut rows: Table<Vec<RevisionRow>> = Table::new();
        assert(histories(rows@) =~= Map::<Seq<char>, Seq<RowView>>::empty());
        assert(BookView { rows: histories(rows@), snapshots: book.snapshots }.ok());
        std::mem::swap(&mut rows, &mut self.rows);
        let ghost was = rows@;
        if let Some(list) = rows.remove(key.as_str()) {
            let ghost k = key@;
            let ghost before = row_views(list@);
            let after = promote(list, revision);
            let ghost v = row_views(after@);
            let _old = rows.insert(key, after);
            proof {
                assert(histories(rows@) =~= book.rows.insert(k, v));
                let now_rows = histories(rows@);
                assert forall|other: Seq<char>| #[trigger]
                    now_rows.contains_key(other) implies numbered(now_rows[other], other) by {
                    if other == k {
                        assert(numbered(book.rows[k], k));
                        if before.len() > 0 {
                            law_promotion(before, k, revision, 0);
                        }
                    } else {
                        assert(book.rows.contains_key(other));
                    }
                }
            }
        } else {
            assert(histories(rows@) =~= book.rows);
        }
        self.rows = rows;
        assert(self@ =~= book.promoted(slot_key(slot@), revision));
        let _id = self.snapshot(shelf, cause, now);
    }

    /// Changes a revision's status.
    pub fn mark(&mut self, slot: &Slot, revision: u64, status: Status) -> (r: Result<(), String>)
        ensures
            match r {
                Ok(()) => {
                    &&& 1 <= revision <= old(self)@.history(slot_key(slot@)).len()
                    &&& final(self)@ == old(self)@.marked(slot_key(slot@), revision, status)
                },
                Err(e) => {
                    &&& !(1 <= revision <= old(self)@.history(slot_key(slot@)).len())
                    &&& e@ == slot_key(slot@) + " has no revision "@ + decimal(revision as nat)
                    &&& final(self)@ == old(self)@
                },
            },
    {
        proof {
            use_type_invariant(&*self);
        }
        let ghost book = self@;
        let key = slot.key();
        let ghost k = key@;
        let found = match self.rows.get(key.as_str()) {
            Some(rows) => {
                proof {
                    assert(book.rows.contains_key(k));
                    lemma_numbered(row_views(rows@), k, revision);
                }
                find_row(rows, revision).is_some()
            },
            None => false,
        };
        if !found {
            return Err(
                key.concat(" has no revision ").concat(text::number(revision).as_str()),
            );
        }
        let mut rows: Table<Vec<RevisionRow>> = Table::new();
        assert(histories(rows@) =~= Map::<Seq<char>, Seq<RowView>>::empty());
        assert(BookView { rows: histories(rows@), snapshots: book.snapshots }.ok());
        std::mem::swap(&mut rows, &mut self.rows);
        if let Some(list) = rows.remove(key.as_str()) {
            let ghost before = row_views(list@);
            let after = mark_row(list, revision, status);
            let ghost v = row_views(after@);
            let _old = rows.insert(key, after);
            proof {
                assert(histories(rows@) =~= book.rows.insert(k, v));
                let now_rows = histories(rows@);
                assert forall|other: Seq<char>| #[trigger]
                    now_rows.contains_key(other) implies numbered(now_rows[other], other) by {
                    if other == k {
                        assert(numbered(before, k));
                        assert forall|i: int| 0 <= i < v.len() implies (#[trigger] v[i]).revision
                            == i + 1 && v[i].slot == k by {
                            assert(before[i].revision == i + 1);
                        }
                    } else {
                        assert(book.rows.contains_key(other));
                    }
                }
            }
        }
        self.rows = rows;
        assert(self@ =~= book.marked(k, revision, status));
        Ok(())
    }

    // --- queries ------------------------------------------------------------

    /// The history of a slot, oldest first.
    pub fn history(&self, slot: &Slot) -> (r: Vec<RevisionRow>)
        ensures
            row_views(r@) == self@.history(slot_key(slot@)),
            numbered(row_views(r@), slot_key(slot@)),
    {
        proof {
            use_type_invariant(self);
        }
        match self.rows.get(slot.key().as_str()) {
            Some(rows) => {
                assert(self@.rows.contains_key(slot_key(slot@)));
                copy_rows(rows)
            },
            None => {
                let none: Vec<RevisionRow> = Vec::new();
                assert(row_views(none@) =~= Seq::<RowView>::empty());
                none
            },
        }
    }

    /// The active revision of a slot.
    pub fn active(&self, slot: &Slot) -> (r: Option<RevisionRow>)
        ensures
            row_of(r) == active_row(self@.history(slot_key(slot@))),
    {
        find_active(&self.history(slot))
    }

    /// The revision a rollback should target when none is named.
    pub fn last_known_good(&self, slot: &Slot) -> (r: Option<RevisionRow>)
        ensures
            row_of(r) == fallback_row(self@.history(slot_key(slot@))),
    {
        find_fallback(&self.history(slot))
    }

    /// The slots on the shelf, in the order of their keys. They are found there
    /// rather than in the histories, so that a slot is seen even if it failed to
    /// load this time.
    pub fn slots_with_history(&self, shelf: &Shelf) -> (r: Vec<Slot>)
        ensures
            slot_views(r@) == slots_named(arranged(shelf_keys(*shelf))),
    {
        let keys = known_slot_keys(shelf);
        let ghost all = texts(keys@);
        let mut out: Vec<Slot> = Vec::new();
        assert(all.take(0) =~= Seq::<Seq<char>>::empty());
        assert(slot_views(out@) =~= Seq::<SlotView>::empty());
        for i in 0..keys.len()
            invariant
                all == texts(keys@),
                slot_views(out@) == slots_named(all.take(i as int)),
        {
            let ghost had = out@;
            proof {
                assert(all.take(i + 1).drop_last() =~= all.take(i as int));
                assert(all.take(i + 1).last() == keys@[i as int]@);
            }
            if let Ok(s) = Slot::parse(keys[i].as_str()) {
                out.push(s);
                assert(slot_views(out@) =~= slot_views(had).push(s@));
            }
        }
        assert(all.take(keys@.len() as int) =~= all);
        out
    }

    // --- snapshots ----------------------------------------------------------

    /// Records which revision every slot is running.
    pub fn snapshot(&mut self, shelf: &Shelf, cause: &str, now: u64) -> (id: u64)
        requires
            old(self)@.snapshots.len() < u64::MAX,
        ensures
            final(self)@ == old(self)@.snapped(*shelf, cause@, now),
            id == old(self)@.snapshots.len() + 1,
    {
        proof {
            use_type_invariant(&*self);
        }
        let ghost book = self@;
        let slots = self.running_now(shelf);
        assert(snapshot_views(self.snapshots@).len() == self.snapshots@.len());
        let id: u64 = self.snapshots.len() as u64 + 1;
        let snapshot = SystemSnapshot { id, created_ms: now, cause: cause.to_owned(), slots };
        let ghost v = snapshot@;
        let mut list: Vec<SystemSnapshot> = Vec::new();
        assert(snapshot_views(list@) =~= Seq::<SnapshotView>::empty());
        std::mem::swap(&mut list, &mut self.snapshots);
        let ghost had = list@;
        list.push(snapshot);
        proof {
            assert(snapshot_views(list@) =~= snapshot_views(had).push(v));
            let after = snapshot_views(list@);
            assert forall|i: int| 0 <= i < after.len() implies (#[trigger] after[i]).id == i + 1 by {
                if i < had.len() {
                    assert(after[i] == book.snapshots[i]);
                }
            }
        }
        self.snapshots = list;
        assert(self@ =~= book.snapped(*shelf, cause@, now));
        id
    }

    fn running_now(&self, shelf: &Shelf) -> (r: Table<u64>)
        ensures
            r@ == self@.running(*shelf),
    {
        let keys = known_slot_keys(shelf);
        let ghost all = texts(keys@);
        let ghost target = self@.running(*shelf);
        let mut out: Table<u64> = Table::new();
        assert(out@ =~= target.restrict(seen(all.take(0))));
        for i in 0..keys.len()
            invariant
                all == texts(keys@),
                all == arranged(shelf_keys(*shelf)),
                target == self@.running(*shelf),
                out@ == target.restrict(seen(all.take(i as int))),
        {
            let ghost k = keys@[i as int]@;
            proof {
                assert(all[i as int] == k);
                assert(all.contains(k));
                order::lemma_arranged_holds(shelf_keys(*shelf), k);
                assert(all.take(i + 1) =~= all.take(i as int).push(k));
                assert forall|other: Seq<char>| all.take(i + 1).contains(other) == (all.take(
                    i as int,
                ).contains(other) || other == k) by {
                    let a = all.take(i + 1);
                    let b = all.take(i as int);
                    if b.contains(other) {
                        let j = choose|j: int| 0 <= j < b.len() && b[j] == other;
                        assert(a[j] == other);
                    }
                    if other == k {
                        assert(a[i as int] == other);
                    }
                    if a.contains(other) {
                        let j = choose|j: int| 0 <= j < a.len() && a[j] == other;
                        if j < i {
                            assert(b[j] == other);
                        }
                    }
                }
            }
            let named = Slot::parse(keys[i].as_str());
            if let Ok(slot) = named {
                proof {
                    slot::law_named_by_its_key(k);
                }
                if let Some(row) = self.active(&slot) {
                    let _old = out.insert(keys[i].clone(), row.revision);
                }
            }
            assert(out@ =~= target.restrict(seen(all.take(i + 1))));
        }
        proof {
            assert(all.take(keys@.len() as int) =~= all);
            assert forall|k: Seq<char>| target.contains_key(k) implies all.contains(k) by {
                order::lemma_arranged_holds(shelf_keys(*shelf), k);
            }
            assert(out@ =~= target);
        }
        out
    }

    /// The snapshots as they are held, oldest first.
    pub closed spec fn shots(self) -> Seq<SystemSnapshot> {
        self.snapshots@
    }

    /// The snapshots, oldest first.
    pub fn snapshots(&self) -> (r: &Vec<SystemSnapshot>)
        ensures
            r@ == self.shots(),
            snapshot_views(r@) == self@.snapshots,
    {
        &self.snapshots
    }

    /// The snapshot with an id.
    pub fn snapshot_by_id(&self, id: u64) -> (r: Option<&SystemSnapshot>)
        ensures
            match r {
                Some(s) => 1 <= id <= self@.snapshots.len() && s@ == self@.snapshots[id - 1],
                None => !(1 <= id <= self@.snapshots.len()),
            },
    {
        proof {
            use_type_invariant(self);
            assert(snapshot_views(self.snapshots@).len() == self.snapshots@.len());
        }
        for i in 0..self.snapshots.len()
            invariant
                self@.ok(),
                self@.snapshots == snapshot_views(self.snapshots@),
                forall|j: int| 0 <= j < i ==> (#[trigger] self@.snapshots[j]).id != id,
        {
            assert(self@.snapshots[i as int] == self.snapshots@[i as int]@);
            assert(self@.snapshots[i as int].id == i + 1);
            if self.snapshots[i].id == id {
                return Some(&self.snapshots[i]);
            }
        }
        proof {
            if 1 <= id <= self@.snapshots.len() {
                assert(self@.snapshots[id - 1].id == id);
            }
        }
        None
    }
}

spec fn seen(keys: Seq<Seq<char>>) -> Set<Seq<char>> {
    keys.to_set()
}

// --- laws of the book -------------------------------------------------------

/// A rollback never aims for the revision that is running.
pub proof fn law_a_fallback_is_not_the_one_running(rows: Seq<RowView>)
    ensures
        fallback_row(rows) matches Some(r) ==> !(r.status is Active),
{
    lemma_last_good(rows);
}

/// There is always a floor: once the pinned first revision is not the one running,
/// there is something to fall back to.
pub proof fn law_there_is_a_floor(rows: Seq<RowView>)
    requires
        rows.len() > 0,
        !(rows[0].status is Active),
    ensures
        fallback_row(rows) is Some,
{
}

/// What a new revision replaces has run, so there is a known-good revision to
/// fall back to.
pub proof fn law_what_was_replaced_can_be_restored(rows: Seq<RowView>, revision: u64, i: int)
    requires
        0 <= i < rows.len(),
        rows[i].status is Active,
        rows[i].revision != revision,
    ensures
        fallback_row(promoted(rows, revision)) matches Some(r) && r.status is KnownGood,
{
    let after = promoted(rows, revision);
    assert(after[i].status is KnownGood);
    lemma_last_good(after);
    lemma_good_is_found(after, i);
}

proof fn lemma_last_good(rows: Seq<RowView>)
    ensures
        last_good_row(rows) matches Some(r) ==> r.status is KnownGood,
    decreases rows.len(),
{
    if rows.len() > 0 {
        lemma_last_good(rows.drop_last());
    }
}

proof fn lemma_good_is_found(rows: Seq<RowView>, i: int)
    requires
        0 <= i < rows.len(),
        rows[i].status is KnownGood,
    ensures
        last_good_row(rows) is Some,
    decreases rows.len(),
{
    if i < rows.len() - 1 {
        lemma_good_is_found(rows.drop_last(), i);
    }
}

/// A recorded build takes the next number, which no revision of the slot had.
pub proof fn law_numbers_are_never_reused(book: BookView, key: Seq<char>, i: int)
    requires
        book.ok(),
        0 <= i < book.history(key).len(),
    ensures
        book.history(key)[i].revision != book.history(key).len() + 1,
{
    assert(book.rows.contains_key(key));
    assert(book.history(key)[i].revision == i + 1);
}

/// Recording keeps every revision there was.
pub proof fn law_recording_keeps_what_there_was(book: BookView, row: RowView, key: Seq<char>)
    ensures
        book.recorded(row).history(key).len() >= book.history(key).len(),
        book.recorded(row).history(key).take(book.history(key).len() as int) == book.history(key),
        book.recorded(row).snapshots == book.snapshots,
{
    assert(book.recorded(row).history(key).take(book.history(key).len() as int)
        =~= book.history(key));
}

/// Whether every slot with a history stands on the shelf: recording a build puts
/// its component there.
pub open spec fn stocked(book: BookView, shelf: Shelf) -> bool {
    forall|key: Seq<char>| #[trigger]
        book.rows.contains_key(key) ==> shelf_keys(shelf).contains(key)
}

/// Whether a shelf holds what another did, and a slot besides.
pub open spec fn joined_by(shelf: Shelf, after: Shelf, key: Seq<char>) -> bool {
    &&& shelf_keys(after).contains(key)
    &&& forall|other: Seq<char>| #[trigger]
        shelf_keys(shelf).contains(other) ==> shelf_keys(after).contains(other)
}

/// Once a build is recorded and its component stands on the shelf, every slot with
/// a history still does.
pub proof fn law_recording_keeps_the_shelf_stocked(
    book: BookView,
    row: RowView,
    shelf: Shelf,
    after: Shelf,
)
    requires
        stocked(book, shelf),
        joined_by(shelf, after, row.slot),
    ensures
        stocked(book.recorded(row), after),
{
    assert forall|key: Seq<char>| #[trigger]
        book.recorded(row).rows.contains_key(key) implies shelf_keys(after).contains(key) by {
        if key != row.slot {
            assert(book.rows.contains_key(key));
        }
    }
}

/// Activating a recorded revision makes it the one that is active; what was active
/// before is known good, and every other revision is as it was. One more snapshot
/// says so, and earlier snapshots stay as they were.
pub proof fn law_activation_is_in_the_snapshot(
    book: BookView,
    slot: SlotView,
    revision: u64,
    shelf: Shelf,
    cause: Seq<char>,
    now: u64,
    i: int,
)
    requires
        book.ok(),
        stocked(book, shelf),
        slot::has_name(slot),
        1 <= revision <= book.history(slot_key(slot)).len(),
        0 <= i < book.history(slot_key(slot)).len(),
    ensures
        ({
            let before = book.history(slot_key(slot));
            let after = book.promoted(slot_key(slot), revision).snapped(shelf, cause, now);
            let rows = after.history(slot_key(slot));
            &&& active_row(rows) matches Some(r) && r.revision == revision
            &&& rows.len() == before.len()
            &&& (rows[i].status is Active) <==> i + 1 == revision
            &&& i + 1 != revision && before[i].status is Active ==> rows[i].status is KnownGood
            &&& i + 1 != revision && !(before[i].status is Active) ==> rows[i] == before[i]
            &&& after.snapshots.len() == book.snapshots.len() + 1
            &&& after.snapshots.drop_last() == book.snapshots
            &&& after.snapshots.last().cause == cause
            &&& after.snapshots.last().slots.contains_key(slot_key(slot))
            &&& after.snapshots.last().slots[slot_key(slot)] == revision
        }),
{
    let key = slot_key(slot);
    assert(book.rows.contains_key(key));
    law_the_promoted_revision_is_active(book.rows[key], key, revision);
    law_promotion(book.rows[key], key, revision, i);
    slot::law_key_round_trip(slot);
    let after = book.promoted(key, revision).snapped(shelf, cause, now);
    assert(after.snapshots.drop_last() =~= book.snapshots);
}

/// Activating a revision of one slot leaves every other slot's history alone.
pub proof fn law_activation_leaves_other_slots_alone(
    book: BookView,
    key: Seq<char>,
    revision: u64,
    shelf: Shelf,
    cause: Seq<char>,
    now: u64,
    other: Seq<char>,
)
    requires
        other != key,
    ensures
        book.promoted(key, revision).snapped(shelf, cause, now).history(other) == book.history(
            other,
        ),
{
}

/// Restoring a snapshot of a tree puts every file back as it was when the snapshot
/// was taken, whatever became of the tree since: none is missing, none differs, and
/// none that was added survives. Build output at the top of the tree is left as it
/// is.
pub proof fn law_a_restored_tree_is_as_it_was(
    before: Map<Seq<Seq<char>>, Seq<u8>>,
    after: Map<Seq<Seq<char>>, Seq<u8>>,
    path: Seq<Seq<char>>,
)
    requires
        path.len() > 0,
    ensures
        ({
            let back = replaced_by(after, copied(before, Map::empty()));
            if stays(path[0]) {
                back.contains_key(path) == after.contains_key(path) && (after.contains_key(path)
                    ==> back[path] == after[path])
            } else if carried(path) {
                back.contains_key(path) == before.contains_key(path) && (before.contains_key(path)
                    ==> back[path] == before[path])
            } else {
                !back.contains_key(path)
            }
        }),
{
    if carried(path) {
        assert(!stays(path[0]));
    }
}

/// Exactly the members that do not stay are copied or removed.
pub proof fn law_movable_members_do_not_stay(names: Seq<Seq<char>>, name: Seq<char>)
    ensures
        movable(names).contains(name) <==> names.contains(name) && !stays(name),
    decreases names.len(),
{
    if names.len() > 0 {
        let rest = names.drop_last();
        law_movable_members_do_not_stay(rest, name);
        let head = movable(rest);
        if movable(names).contains(name) {
            let k = choose|k: int| 0 <= k < movable(names).len() && movable(names)[k] == name;
            if k < head.len() {
                assert(head[k] == name);
                let j = choose|j: int| 0 <= j < rest.len() && rest[j] == name;
                assert(names[j] == name);
            } else {
                assert(names[names.len() - 1] == name);
            }
        }
        if names.contains(name) && !stays(name) {
            let j = choose|j: int| 0 <= j < names.len() && names[j] == name;
            if j < rest.len() {
                assert(rest[j] == name);
                let k = choose|k: int| 0 <= k < head.len() && head[k] == name;
                assert(movable(names)[k] == name);
            } else {
                assert(movable(names)[head.len() as int] == name);
            }
        }
    }
}

/// The revision to fall back to is the most recent one that is known to have worked:
/// if any has, it is one, and none behind it in the history is. Where none has, it is
/// the pinned first revision, unless that is the one running.
pub proof fn law_the_fallback_is_the_most_recent_good_one(rows: Seq<RowView>)
    ensures
        (exists|i: int| 0 <= i < rows.len() && (#[trigger] rows[i]).status is KnownGood) ==> (
        exists|i: int|
            0 <= i < rows.len() && (#[trigger] rows[i]).status is KnownGood && fallback_row(rows)
                == Some(rows[i]) && (forall|j: int|
                i < j < rows.len() ==> !((#[trigger] rows[j]).status is KnownGood))),
        (forall|i: int| 0 <= i < rows.len() ==> !((#[trigger] rows[i]).status is KnownGood))
            ==> fallback_row(rows) == if rows.len() > 0 && !(rows[0].status is Active) {
            Some(rows[0])
        } else {
            None
        },
    decreases rows.len(),
{
    if rows.len() > 0 && !(rows.last().status is KnownGood) {
        let rest = rows.drop_last();
        law_the_fallback_is_the_most_recent_good_one(rest);
        assert forall|i: int| 0 <= i < rest.len() implies rest[i] == #[trigger] rows[i] by {}
        if exists|i: int| 0 <= i < rows.len() && (#[trigger] rows[i]).status is KnownGood {
            let g = choose|i: int| 0 <= i < rows.len() && (#[trigger] rows[i]).status is KnownGood;
            assert(rest[g].status is KnownGood);
            lemma_good_is_found(rest, g);
            let i = choose|i: int|
                0 <= i < rest.len() && (#[trigger] rest[i]).status is KnownGood && fallback_row(
                    rest,
                ) == Some(rest[i]) && (forall|j: int|
                    i < j < rest.len() ==> !((#[trigger] rest[j]).status is KnownGood));
            assert(rows[i].status is KnownGood);
            assert forall|j: int| i < j < rows.len() implies !(
            (#[trigger] rows[j]).status is KnownGood) by {
                if j < rest.len() {
                    assert(rest[j] == rows[j]);
                }
            }
        } else if rest.len() > 0 {
            assert(rows[0] == rest[0]);
        }
    } else if rows.len() > 0 {
        assert(rows[rows.len() - 1].status is KnownGood);
    }
}

/// Where a newly recorded revision takes over from the one that was running, the
/// revision to fall back to is the one it took over from, whatever ran before.
pub proof fn law_the_fallback_is_what_was_just_replaced(
    rows: Seq<RowView>,
    key: Seq<char>,
    row: RowView,
)
    requires
        numbered(rows, key),
        rows.len() > 0,
        rows.last().status is Active,
        row.revision == rows.len() + 1,
        !(row.status is KnownGood),
    ensures
        fallback_row(promoted(rows.push(row), row.revision)) matches Some(r) && r.revision
            == rows.last().revision && r.status is KnownGood,
{
    let after = promoted(rows.push(row), row.revision);
    let at = rows.len() - 1;
    assert(rows[at].revision == at + 1);
    assert(after[at].status is KnownGood);
    assert(after[at + 1].status is Active);
    law_the_fallback_is_the_most_recent_good_one(after);
    let i = choose|i: int|
        0 <= i < after.len() && (#[trigger] after[i]).status is KnownGood && fallback_row(after)
            == Some(after[i]) && (forall|j: int|
            i < j < after.len() ==> !((#[trigger] after[j]).status is KnownGood));
    assert(i == at);
}

/// Promoting a revision or changing its status touches nothing but statuses: who made
/// a revision, when, what was noted, its fingerprint and its number stay.
pub proof fn law_only_statuses_change(rows: Seq<RowView>, revision: u64, status: Status, i: int)
    requires
        0 <= i < rows.len(),
    ensures
        promoted(rows, revision).len() == rows.len(),
        marked(rows, revision, status).len() == rows.len(),
        promoted(rows, revision)[i] == (RowView {
            status: promoted(rows, revision)[i].status,
            ..rows[i]
        }),
        marked(rows, revision, status)[i] == (RowView {
            status: marked(rows, revision, status)[i].status,
            ..rows[i]
        }),
        marked(rows, revision, status)[i].status == if rows[i].revision == revision {
            status
        } else {
            rows[i].status
        },
{
}

/// What is recorded is one more row at the end of its slot's history, as it was
/// given, and no other slot's history changes.
pub proof fn law_a_recorded_build_comes_last(book: BookView, row: RowView, other: Seq<char>)
    requires
        other != row.slot,
    ensures
        book.recorded(row).history(row.slot).len() == book.history(row.slot).len() + 1,
        book.recorded(row).history(row.slot).last() == row,
        book.recorded(row).history(other) == book.history(other),
{
}

/// A snapshot says of every slot on the shelf which revision of it is active, and
/// nothing of a slot that has none; it takes the next number and the given time, and
/// earlier snapshots stay as they were.
pub proof fn law_a_snapshot_says_what_runs(
    book: BookView,
    shelf: Shelf,
    cause: Seq<char>,
    now: u64,
    slot: SlotView,
)
    requires
        slot::has_name(slot),
        book.snapshots.len() < u64::MAX,
        shelf_keys(shelf).contains(slot_key(slot)),
    ensures
        ({
            let after = book.snapped(shelf, cause, now);
            let shot = after.snapshots.last();
            let rows = book.history(slot_key(slot));
            &&& after.rows == book.rows
            &&& after.snapshots.drop_last() == book.snapshots
            &&& shot.id == book.snapshots.len() + 1
            &&& shot.created_ms == now
            &&& shot.cause == cause
            &&& shot.slots.contains_key(slot_key(slot)) <==> (exists|i: int|
                0 <= i < rows.len() && (#[trigger] rows[i]).status is Active)
            &&& shot.slots.contains_key(slot_key(slot)) ==> (exists|i: int|
                0 <= i < rows.len() && (#[trigger] rows[i]).status is Active && rows[i].revision
                    == shot.slots[slot_key(slot)])
        }),
{
    let after = book.snapped(shelf, cause, now);
    assert(after.snapshots.drop_last() =~= book.snapshots);
    slot::law_key_round_trip(slot);
    lemma_active_row(book.history(slot_key(slot)));
}

/// The active row of a history is one of its rows that is active, the first there is.
pub proof fn lemma_active_row(rows: Seq<RowView>)
    ensures
        match active_row(rows) {
            Some(r) => exists|i: int|
                0 <= i < rows.len() && #[trigger] rows[i] == r && r.status is Active && (forall|
                    j: int,
                |
                    0 <= j < i ==> !((#[trigger] rows[j]).status is Active)),
            None => forall|i: int|
                0 <= i < rows.len() ==> !((#[trigger] rows[i]).status is Active),
        },
    decreases rows.len(),
{
    if rows.len() > 0 && !(rows[0].status is Active) {
        let rest = rows.skip(1);
        lemma_active_row(rest);
        match active_row(rest) {
            Some(r) => {
                let i = choose|i: int|
                    0 <= i < rest.len() && #[trigger] rest[i] == r && r.status is Active && (
                    forall|j: int| 0 <= j < i ==> !((#[trigger] rest[j]).status is Active));
                assert(rows[i + 1] == r);
                assert forall|j: int| 0 <= j < i + 1 implies !(
                (#[trigger] rows[j]).status is Active) by {
                    if j > 0 {
                        assert(rest[j - 1] == rows[j]);
                    }
                }
            },
            None => {
                assert forall|i: int| 0 <= i < rows.len() implies !(
                (#[trigger] rows[i]).status is Active) by {
                    if i > 0 {
                        assert(rest[i - 1] == rows[i]);
                    }
                }
            },
        }
    } else if rows.len() > 0 {
        assert(rows[0] == active_row(rows)->0);
    }
}

/// What stands on the shelf is listed under the keys of its slots: the agent's own
/// key, and the name of each gateway and tool behind the word for its kind.
pub proof fn law_the_shelf_is_listed_by_key(shelf: Shelf, slot: SlotView)
    ensures
        shelf_keys(shelf).contains(slot_key(slot)) <==> match slot {
            SlotView::Agent => shelf.agent,
            SlotView::Gateway(n) => texts(shelf.gateways@).contains(n),
            SlotView::Tool(n) => texts(shelf.tools@).contains(n),
        },
{
    let a = if shelf.agent {
        seq!["agent"@]
    } else {
        Seq::<Seq<char>>::empty()
    };
    let b = keyed("gateway/"@, texts(shelf.gateways@));
    let c = keyed("tool/"@, texts(shelf.tools@));
    let all = shelf_keys(shelf);
    reveal_strlit("agent");
    reveal_strlit("gateway/");
    reveal_strlit("tool/");
    let key = slot_key(slot);
    assert("agent"@[0] == 'a' && "gateway/"@[0] == 'g' && "tool/"@[0] == 't');
    match slot {
        SlotView::Agent => {
            assert(key =~= "agent"@);
        },
        SlotView::Gateway(n) => {
            assert(key =~= "gateway/"@ + n);
        },
        SlotView::Tool(n) => {
            assert(key =~= "tool/"@ + n);
        },
    }
    assert(key.len() > 0);
    assert forall|i: int| 0 <= i < b.len() implies (#[trigger] b[i])[0] == 'g' by {
        assert(b[i] == "gateway/"@ + texts(shelf.gateways@)[i]);
    }
    assert forall|i: int| 0 <= i < c.len() implies (#[trigger] c[i])[0] == 't' by {
        assert(c[i] == "tool/"@ + texts(shelf.tools@)[i]);
    }
    if all.contains(key) {
        let i = choose|i: int| 0 <= i < all.len() && all[i] == key;
        if i < a.len() {
            assert(a[i] == key);
        } else if i < a.len() + b.len() {
            assert(b[i - a.len()] == key);
            let n = texts(shelf.gateways@)[i - a.len()];
            assert(key.skip(8) =~= n);
            assert(slot is Gateway);
            assert(key.skip(8) =~= slot->Gateway_0);
            assert(texts(shelf.gateways@).contains(n));
        } else {
            assert(c[i - a.len() - b.len()] == key);
            let n = texts(shelf.tools@)[i - a.len() - b.len()];
            assert(key.skip(5) =~= n);
            assert(slot is Tool);
            assert(key.skip(5) =~= slot->Tool_0);
            assert(texts(shelf.tools@).contains(n));
        }
    }
    match slot {
        SlotView::Agent => {
            if shelf.agent {
                assert(all[0] == key);
            }
        },
        SlotView::Gateway(n) => {
            if texts(shelf.gateways@).contains(n) {
                let i = choose|i: int|
                    0 <= i < texts(shelf.gateways@).len() && texts(shelf.gateways@)[i] == n;
                assert(all[a.len() + i] == key);
            }
        },
        SlotView::Tool(n) => {
            if texts(shelf.tools@).contains(n) {
                let i = choose|i: int|
                    0 <= i < texts(shelf.tools@).len() && texts(shelf.tools@)[i] == n;
                assert(all[a.len() + b.len() + i] == key);
            }
        },
    }
}

/// The words for a revision's state, and those for where it came from, are all
/// different, so that a history can be read back.
pub proof fn law_words_tell_states_apart(a: Status, b: Status, x: Origin, y: Origin)
    ensures
        status_word(a) == status_word(b) ==> a == b,
        origin_word(x) == origin_word(y) ==> x == y,
{
    reveal_strlit("candidate");
    reveal_strlit("active");
    reveal_strlit("known-good");
    reveal_strlit("rolled-back");
    reveal_strlit("disabled");
    assert("candidate"@.len() == 9 && "active"@.len() == 6 && "known-good"@.len() == 10);
    assert("rolled-back"@.len() == 11 && "disabled"@.len() == 8);
    reveal_strlit("bootstrap");
    reveal_strlit("human-edit");
    reveal_strlit("agent-mod");
    reveal_strlit("rollback");
    assert("bootstrap"@.len() == 9 && "bootstrap"@[0] == 'b');
    assert("human-edit"@.len() == 10 && "agent-mod"@.len() == 9 && "agent-mod"@[0] == 'a');
    assert("rollback"@.len() == 8);
}

/// A digest is written two digits to a byte, and no two digests are written alike.
pub proof fn law_digests_are_written_apart(a: Seq<u8>, b: Seq<u8>)
    ensures
        hex_text(a).len() == 2 * a.len(),
        hex_text(a) == hex_text(b) ==> a == b,
{
    if hex_text(a) == hex_text(b) {
        assert(a.len() == b.len());
        assert forall|i: int| 0 <= i < a.len() implies a[i] == b[i] by {
            assert(hex_text(a)[2 * i] == hex_text(b)[2 * i]);
            assert(hex_text(a)[2 * i + 1] == hex_text(b)[2 * i + 1]);
            assert((2 * i) / 2 == i && (2 * i) % 2 == 0);
            assert((2 * i + 1) / 2 == i && (2 * i + 1) % 2 == 1);
            lemma_hex_digits(a[i] as int / 16, b[i] as int / 16);
            lemma_hex_digits(a[i] as int % 16, b[i] as int % 16);
        }
        assert(a =~= b);
    }
}

proof fn lemma_hex_digits(m: int, n: int)
    requires
        0 <= m < 16,
        0 <= n < 16,
        hex_digit(m) == hex_digit(n),
    ensures
        m == n,
{
    reveal_strlit("0123456789abcdef");
}

/// A revision is found under its number, the first of that number; and none is found
/// where there is none.
pub proof fn law_a_revision_is_found_by_its_number(rows: Seq<RowView>, revision: u64)
    ensures
        match row_at(rows, revision) {
            Some(r) => r.revision == revision && rows.contains(r),
            None => forall|i: int|
                0 <= i < rows.len() ==> (#[trigger] rows[i]).revision != revision,
        },
    decreases rows.len(),
{
    if rows.len() > 0 {
        let rest = rows.skip(1);
        law_a_revision_is_found_by_its_number(rest, revision);
        if rows[0].revision == revision {
            assert(rows.contains(rows[0]));
        } else {
            match row_at(rest, revision) {
                Some(r) => {
                    let i = choose|i: int| 0 <= i < rest.len() && rest[i] == r;
                    assert(rows[i + 1] == r);
                },
                None => {
                    assert forall|i: int| 0 <= i < rows.len() implies (#[trigger] rows[i]).revision
                        != revision by {
                        if i > 0 {
                            assert(rest[i - 1] == rows[i]);
                        }
                    }
                },
            }
        }
    }
}

/// The slots that keys name come in the order of the keys, and what names none is passed
/// over.
pub proof fn law_slots_are_named_in_order(
    before: Seq<Seq<char>>,
    key: Seq<char>,
    after: Seq<Seq<char>>,
)
    ensures
        slots_named(before + seq![key] + after) == slots_named(before) + (match slot_named(key) {
            Some(s) => seq![s],
            None => Seq::empty(),
        }) + slots_named(after),
        slots_named(Seq::empty()).len() == 0,
{
    let one = seq![key];
    lemma_slots_add(before + one, after);
    lemma_slots_add(before, one);
    assert(one.drop_last() =~= Seq::<Seq<char>>::empty());
    assert(slots_named(Seq::<Seq<char>>::empty()) == Seq::<SlotView>::empty());
    match slot_named(key) {
        Some(s) => {
            assert(slots_named(one) =~= seq![s]);
        },
        None => {
            assert(slots_named(one) =~= Seq::<SlotView>::empty());
        },
    }
}

proof fn lemma_slots_add(a: Seq<Seq<char>>, b: Seq<Seq<char>>)
    ensures
        slots_named(a + b) == slots_named(a) + slots_named(b),
    decreases b.len(),
{
    if b.len() == 0 {
        assert(a + b =~= a);
        assert(slots_named(a) + slots_named(b) =~= slots_named(a));
    } else {
        assert((a + b).drop_last() =~= a + b.drop_last());
        assert((a + b).last() == b.last());
        lemma_slots_add(a, b.drop_last());
        if let Some(s) = slot_named(b.last()) {
            assert((slots_named(a) + slots_named(b.drop_last())).push(s) =~= slots_named(a)
                + slots_named(b.drop_last()).push(s));
        }
    }
}

/// Build output and history stay where they are; everything else of a tree is moved, in
/// order.
pub proof fn law_build_output_and_history_stay(
    before: Seq<Seq<char>>,
    name: Seq<char>,
    after: Seq<Seq<char>>,
)
    ensures
        movable(before + seq!["target"@] + after) == movable(before) + movable(after),
        movable(before + seq![".git"@] + after) == movable(before) + movable(after),
        name != "target"@ && name != ".git"@ ==> movable(before + seq![name] + after) == movable(
            before,
        ) + seq![name] + movable(after),
        movable(Seq::empty()).len() == 0,
        !carried(seq!["target"@]) && !carried(seq![".git"@]),
{
    let none = Seq::<Seq<char>>::empty();
    assert(movable(none) == none);
    lemma_movable_one(before, "target"@, after);
    lemma_movable_one(before, ".git"@, after);
    lemma_movable_one(before, name, after);
    assert(movable(before) + none =~= movable(before));
    assert(stays(seq!["target"@][0]));
    assert(stays(seq![".git"@][0]));
}

proof fn lemma_movable_one(before: Seq<Seq<char>>, name: Seq<char>, after: Seq<Seq<char>>)
    ensures
        movable(before + seq![name] + after) == movable(before) + (if stays(name) {
            Seq::empty()
        } else {
            seq![name]
        }) + movable(after),
{
    let one = seq![name];
    lemma_movable_add(before + one, after);
    lemma_movable_add(before, one);
    let none = Seq::<Seq<char>>::empty();
    assert(one.drop_last() =~= none);
    assert(movable(none) == none);
    if stays(name) {
        assert(movable(one) =~= none);
    } else {
        assert(movable(one) =~= one);
    }
}

proof fn lemma_movable_add(a: Seq<Seq<char>>, b: Seq<Seq<char>>)
    ensures
        movable(a + b) == movable(a) + movable(b),
    decreases b.len(),
{
    if b.len() == 0 {
        assert(a + b =~= a);
        assert(movable(a) + movable(b) =~= movable(a));
    } else {
        assert((a + b).drop_last() =~= a + b.drop_last());
        assert((a + b).last() == b.last());
        lemma_movable_add(a, b.drop_last());
        if !stays(b.last()) {
            assert((movable(a) + movable(b.drop_last())).push(b.last()) =~= movable(a) + movable(
                b.drop_last(),
            ).push(b.last()));
        }
    }
}

} // verus!
