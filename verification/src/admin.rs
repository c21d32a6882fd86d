//! The pages the host serves itself, with no guest in their path: the admin
//! console, and the page shown when the gateway cannot serve its own.
use vstd::prelude::*;

use crate::order::arranged;
use crate::report::{append_when, given};
use crate::revisions::{
    origin_word, row_views, shelf_keys, slot_views, slots_named, status_word, BookView, RevisionRow,
    Revisions, RowView, Shelf, SystemSnapshot,
};
use crate::slot::{slot_key, slot_named, Slot, SlotView};
use crate::table::Table;
use crate::text;
use crate::text::{
    after_prefix, decimal, joined, number, pad_number, text_of, texts, trimmed, unsigned_value,
    zero_padded,
};

verus! {

/// The page shown when the gateway is unavailable, up to the reason.
pub const FALLBACK_HEAD: &'static str = r##"<!doctype html><meta charset="utf-8"><title>Genesis — gateway unavailable</title>
<style>body{font:15px/1.6 ui-sans-serif,system-ui,sans-serif;max-width:40rem;margin:4rem auto;padding:0 1.5rem;color:#e6e6e6;background:#16161a}
code{background:#26262c;padding:.15em .4em;border-radius:4px} a{color:#7aa2f7}</style>
<h1>The chat gateway is unavailable</h1>
<p>The orchestrator is running, but the gateway component could not serve this page.</p>
<pre><code>"##;

/// The page shown when the gateway is unavailable, after the reason.
pub const FALLBACK_TAIL: &'static str = r##"</code></pre>
<p>The system is still recoverable: <a href="/admin">open the admin console</a> to inspect
component revisions and roll the gateway back to a working one.</p>"##;

/// The admin page, up to the banner.
pub const ADMIN_HEAD: &'static str = r##"<!doctype html><meta charset="utf-8"><title>Genesis admin</title>
<style>
 body{font:15px/1.6 ui-sans-serif,system-ui,sans-serif;max-width:60rem;margin:3rem auto;padding:0 1.5rem;color:#e6e6e6;background:#16161a}
 h1{font-size:1.4rem;margin-bottom:.2rem} h2{font-size:1.1rem;margin-top:2.2rem}
 h3{font-size:.95rem;margin:1.4rem 0 .2rem;font-weight:600}
 table{border-collapse:collapse;width:100%;margin:.4rem 0 1rem}
 th,td{text-align:left;padding:.45rem .7rem;border-bottom:1px solid #2a2a32;vertical-align:middle}
 th{font-size:.7rem;text-transform:uppercase;letter-spacing:.06em;color:#9a9aa8}
 code{background:#26262c;padding:.15em .4em;border-radius:4px}
 button{font:inherit;font-size:.8rem;color:#e6e6e6;background:#26262c;border:1px solid #35353f;
        border-radius:6px;padding:3px 10px;cursor:pointer}
 button:hover{background:#31313c} form{margin:0}
 a{color:#7aa2f7} .note{color:#9a9aa8;font-size:.85rem}
 .active{color:#9ece6a} .known-good{color:#7aa2f7} .disabled{color:#f7768e}
 .rolled-back{color:#e0af68} .candidate{color:#9a9aa8}
 .banner{padding:.7rem 1rem;border-radius:8px;margin:1rem 0}
 .banner.ok{background:#1d2a1d;border:1px solid #2f4a2f}
 .banner.bad{background:#2f1d21;border:1px solid #5a2f38}
</style>
<h1>Genesis admin</h1>
<p class=note>Served directly by the orchestrator — no WebAssembly in this page's path.
It keeps working when every guest is broken.</p>
"##;

/// The admin page, between the banner and the components.
pub const ADMIN_COMPONENTS: &'static str = r##"
<h2>Components</h2>
"##;

/// The admin page, between the components and the snapshots.
pub const ADMIN_SNAPSHOTS: &'static str = r##"
<h2>System snapshots</h2>
<p class=note>Each row is the exact set of revisions the whole system was running at that
moment. Restoring one moves every slot back together.</p>
<table><tr><th>id</th><th>cause</th><th>slots</th><th></th></tr>
"##;

/// The admin page, between the snapshots and the number of sessions.
pub const ADMIN_COUNT: &'static str = r##"</table>
<p class=note>"##;

/// The admin page, after the number of sessions.
pub const ADMIN_TAIL: &'static str = r##" session(s) on record.</p>
<p><a href="/">&larr; back to chat</a></p>"##;

/// The form that restores a revision, up to the slot.
pub const RESTORE_HEAD: &'static str = r##"<form method=post action="/admin/rollback">
                               <input type=hidden name=target value=""##;

/// The form that restores a revision, between the slot and the revision.
pub const RESTORE_REVISION: &'static str = r##"">
                               <input type=hidden name=revision value=""##;

/// The form that restores a revision, after the revision.
pub const RESTORE_TAIL: &'static str = r##"">
                               <button>restore</button></form>"##;

/// The form that restores a snapshot, up to its id.
pub const RESTORE_ALL_HEAD: &'static str = r##"<form method=post action="/admin/rollback">
                       <input type=hidden name=target value="system:"##;

/// The form that restores a snapshot, after its id.
pub const RESTORE_ALL_TAIL: &'static str = r##"">
                       <button>restore all</button></form>"##;

/// A section of the admin page, up to the slot.
pub const SECTION_HEAD: &'static str = r##"<h3><code>"##;

/// A section of the admin page, between the slot and its revisions.
pub const SECTION_ROWS: &'static str = r##"</code></h3>
<table><tr><th>revision</th><th>status</th><th>origin</th><th>note</th><th></th></tr>
"##;

/// A section of the admin page, after the revisions.
pub const SECTION_TAIL: &'static str = r##"</table>"##;

// --- escaping ---------------------------------------------------------------

/// A character as it is written in a page.
pub open spec fn escaped_char(c: char) -> Seq<char> {
    if c == '&' {
        "&amp;"@
    } else if c == '<' {
        "&lt;"@
    } else if c == '>' {
        "&gt;"@
    } else {
        seq![c]
    }
}

/// A text as it is written in a page.
pub open spec fn escaped(s: Seq<char>) -> Seq<char>
    decreases s.len(),
{
    if s.len() == 0 {
        Seq::empty()
    } else {
        escaped(s.drop_last()) + escaped_char(s.last())
    }
}

/// A text as it is written in a page.
pub fn html_escape(s: &str) -> (r: String)
    ensures
        r@ == escaped(s@),
{
    let chars = text::chars_of(s);
    let mut out = String::new();
    for i in 0..chars.len()
        invariant
            chars@ == s@,
            out@ == escaped(chars@.take(i as int)),
    {
        let c = chars[i];
        proof {
            assert(chars@.take(i + 1).drop_last() =~= chars@.take(i as int));
        }
        if c == '&' {
            out.append("&amp;");
        } else if c == '<' {
            out.append("&lt;");
        } else if c == '>' {
            out.append("&gt;");
        } else {
            let ghost had = out@;
            out.push(c);
            assert(had.push(c) =~= had + seq![c]);
        }
    }
    assert(chars@.take(chars@.len() as int) =~= chars@);
    out
}

/// Whatever a text holds, its escaped form opens and closes no tag.
pub proof fn law_escaped_text_has_no_tags(s: Seq<char>)
    ensures
        !escaped(s).contains('<'),
        !escaped(s).contains('>'),
    decreases s.len(),
{
    if s.len() > 0 {
        law_escaped_text_has_no_tags(s.drop_last());
        reveal_strlit("&amp;");
        reveal_strlit("&lt;");
        reveal_strlit("&gt;");
        let head = escaped(s.drop_last());
        let tail = escaped_char(s.last());
        assert forall|i: int| 0 <= i < escaped(s).len() implies escaped(s)[i] != '<'
            && escaped(s)[i] != '>' by {
            if i < head.len() {
                assert(escaped(s)[i] == head[i]);
                assert(head.contains(head[i]));
            } else {
                assert(escaped(s)[i] == tail[i - head.len()]);
            }
        }
    }
}

/// A text without markup reads the same escaped.
pub proof fn law_plain_text_stays_as_it_is(s: Seq<char>)
    requires
        !s.contains('&'),
        !s.contains('<'),
        !s.contains('>'),
    ensures
        escaped(s) == s,
    decreases s.len(),
{
    if s.len() > 0 {
        assert(s.contains(s.last()));
        assert forall|c: char| s.drop_last().contains(c) implies s.contains(c) by {
            let i = choose|i: int| 0 <= i < s.drop_last().len() && s.drop_last()[i] == c;
            assert(s[i] == c);
        }
        law_plain_text_stays_as_it_is(s.drop_last());
        assert(escaped(s) =~= s);
    }
}

/// The page shown when the gateway is unavailable.
pub fn fallback_page(detail: &str) -> (r: String)
    ensures
        r@ == FALLBACK_HEAD@ + escaped(detail@) + FALLBACK_TAIL@,
{
    FALLBACK_HEAD.to_owned().concat(html_escape(detail).as_str()).concat(FALLBACK_TAIL)
}

// --- the admin page ---------------------------------------------------------

/// The form that restores a revision.
pub open spec fn restore_form(key: Seq<char>, revision: u64) -> Seq<char> {
    RESTORE_HEAD@ + escaped(key) + RESTORE_REVISION@ + decimal(revision as nat) + RESTORE_TAIL@
}

/// One revision of a slot, with a way back to it unless it is the one running.
pub open spec fn row_text(key: Seq<char>, row: RowView, live: Option<u64>) -> Seq<char> {
    let running = live == Some(row.revision);
    "<tr><td>r"@ + zero_padded(row.revision as nat, 4) + given(running, " &larr; live"@)
        + "</td><td class=\""@ + status_word(row.status) + "\">"@ + status_word(row.status)
        + "</td><td>"@ + origin_word(row.origin) + "</td><td class=note>"@ + escaped(row.note)
        + "</td><td>"@ + given(!running, restore_form(key, row.revision)) + "</td></tr>"@
}

/// One revision of a slot, with a way back to it unless it is the one running.
fn admin_row(key: &str, row: &RevisionRow, live: Option<u64>) -> (r: String)
    ensures
        r@ == row_text(key@, row@, live),
{
    let running = match live {
        Some(n) => n == row.revision,
        None => false,
    };
    let form = RESTORE_HEAD.to_owned().concat(html_escape(key).as_str()).concat(
        RESTORE_REVISION,
    ).concat(number(row.revision).as_str()).concat(RESTORE_TAIL);
    let mut out = "<tr><td>r".to_owned().concat(pad_number(row.revision, 4).as_str());
    append_when(&mut out, running, " &larr; live");
    let mut out = out.concat("</td><td class=\"").concat(row.status.label()).concat("\">").concat(
        row.status.label(),
    ).concat("</td><td>").concat(row.origin.label()).concat("</td><td class=note>").concat(
        html_escape(row.note.as_str()).as_str(),
    ).concat("</td><td>");
    append_when(&mut out, !running, form.as_str());
    out.concat("</td></tr>")
}

/// The revisions of a slot, newest first.
pub open spec fn rows_text(key: Seq<char>, rows: Seq<RowView>, live: Option<u64>) -> Seq<char> {
    joined(
        Seq::new(rows.len(), |i: int| row_text(key, rows[rows.len() - 1 - i], live)),
        "\n"@,
    )
}

/// A text, or another in its place where it is empty.
pub open spec fn or_else(s: Seq<char>, other: Seq<char>) -> Seq<char> {
    if s.len() == 0 {
        other
    } else {
        s
    }
}

/// The section of one slot.
pub open spec fn section_text(key: Seq<char>, rows: Seq<RowView>, live: Option<u64>) -> Seq<char> {
    SECTION_HEAD@ + escaped(key) + SECTION_ROWS@ + or_else(
        rows_text(key, rows, live),
        "<tr><td colspan=5><em>no revisions</em></td></tr>"@,
    ) + SECTION_TAIL@
}

/// The section of one slot.
fn admin_section(key: &str, rows: &Vec<RevisionRow>, live: Option<u64>) -> (r: String)
    ensures
        r@ == section_text(key@, row_views(rows@), live),
{
    let mut lines: Vec<String> = Vec::new();
    let ghost all = Seq::new(
        rows@.len(),
        |i: int| row_text(key@, row_views(rows@)[rows@.len() - 1 - i], live),
    );
    assert(texts(lines@) =~= all.take(0));
    for i in 0..rows.len()
        invariant
            all == Seq::new(
                rows@.len(),
                |i: int| row_text(key@, row_views(rows@)[rows@.len() - 1 - i], live),
            ),
            texts(lines@) == all.take(i as int),
    {
        let ghost had = lines@;
        let line = admin_row(key, &rows[rows.len() - 1 - i], live);
        lines.push(line);
        proof {
            text::lemma_texts_push(had, line);
            assert(all.take(i + 1) =~= all.take(i as int).push(all[i as int]));
        }
    }
    assert(all.take(rows@.len() as int) =~= all);
    let shown = text::join(&lines, "\n");
    let body = if text::is_empty(shown.as_str()) {
        "<tr><td colspan=5><em>no revisions</em></td></tr>".to_owned()
    } else {
        shown
    };
    SECTION_HEAD.to_owned().concat(html_escape(key).as_str()).concat(SECTION_ROWS).concat(
        body.as_str(),
    ).concat(SECTION_TAIL)
}

/// The revision a map gives for a key, if it gives one.
pub open spec fn running(live: Map<Seq<char>, u64>, key: Seq<char>) -> Option<u64> {
    if live.contains_key(key) {
        Some(live[key])
    } else {
        None
    }
}

/// The sections of several slots.
pub open spec fn sections_text(
    slots: Seq<SlotView>,
    book: BookView,
    live: Map<Seq<char>, u64>,
) -> Seq<char>
    decreases slots.len(),
{
    if slots.len() == 0 {
        Seq::empty()
    } else {
        let key = slot_key(slots.last());
        sections_text(slots.drop_last(), book, live) + section_text(
            key,
            book.history(key),
            running(live, key),
        )
    }
}

/// The slots of a snapshot and their revisions.
pub open spec fn slots_line(keys: Seq<Seq<char>>, slots: Map<Seq<char>, u64>) -> Seq<char> {
    joined(
        keys.map_values(|k: Seq<char>| k + "=r"@ + zero_padded(slots[k] as nat, 4)),
        ", "@,
    )
}

/// The slots of a snapshot and their revisions.
pub fn list_slots(slots: &Table<u64>) -> (r: String)
    ensures
        r@ == slots_line(slots.key_list(), slots@),
{
    let mut parts: Vec<String> = Vec::new();
    let ghost keys = slots.key_list();
    let ghost all = keys.map_values(
        |k: Seq<char>| k + "=r"@ + zero_padded(slots@[k] as nat, 4),
    );
    assert(texts(parts@) =~= all.take(0));
    let n: usize = slots.len();
    for i in 0..n
        invariant
            keys == slots.key_list(),
            n == keys.len(),
            all == keys.map_values(|k: Seq<char>| k + "=r"@ + zero_padded(slots@[k] as nat, 4)),
            texts(parts@) == all.take(i as int),
    {
        let ghost had = parts@;
        let part = slots.key_at(i).clone().concat("=r").concat(
            pad_number(*slots.value_at(i), 4).as_str(),
        );
        parts.push(part);
        proof {
            text::lemma_texts_push(had, part);
            assert(all.take(i + 1) =~= all.take(i as int).push(all[i as int]));
        }
    }
    assert(all.take(n as int) =~= all);
    text::join(&parts, ", ")
}

/// One snapshot, with a way back to it.
pub open spec fn snapshot_text(s: SystemSnapshot) -> Seq<char> {
    "<tr><td>#"@ + decimal(s.id as nat) + "</td><td class=note>"@ + escaped(s.cause@)
        + "</td><td class=note>"@ + escaped(slots_line(s.slots.key_list(), s.slots@))
        + "</td><td>"@ + RESTORE_ALL_HEAD@ + decimal(s.id as nat) + RESTORE_ALL_TAIL@
        + "</td></tr>"@
}

fn admin_snapshot(s: &SystemSnapshot) -> (r: String)
    ensures
        r@ == snapshot_text(*s),
{
    "<tr><td>#".to_owned().concat(number(s.id).as_str()).concat("</td><td class=note>").concat(
        html_escape(s.cause.as_str()).as_str(),
    ).concat("</td><td class=note>").concat(
        html_escape(list_slots(&s.slots).as_str()).as_str(),
    ).concat("</td><td>").concat(RESTORE_ALL_HEAD).concat(number(s.id).as_str()).concat(
        RESTORE_ALL_TAIL,
    ).concat("</td></tr>")
}

/// How many snapshots are shown.
pub const SHOWN_SNAPSHOTS: usize = 15;

/// How many of a number of snapshots are shown.
pub open spec fn shown_count(n: nat) -> nat {
    if n < SHOWN_SNAPSHOTS {
        n
    } else {
        SHOWN_SNAPSHOTS as nat
    }
}

/// The latest snapshots, newest first.
pub open spec fn snapshots_text(all: Seq<SystemSnapshot>) -> Seq<char> {
    joined(
        Seq::new(shown_count(all.len()), |i: int| snapshot_text(all[all.len() - 1 - i])),
        "\n"@,
    )
}

/// The latest snapshots, newest first.
fn admin_snapshots(all: &Vec<SystemSnapshot>) -> (r: String)
    ensures
        r@ == snapshots_text(all@),
{
    let mut lines: Vec<String> = Vec::new();
    let total: usize = all.len();
    let count: usize = if total < SHOWN_SNAPSHOTS {
        total
    } else {
        SHOWN_SNAPSHOTS
    };
    let ghost rows = Seq::new(
        shown_count(all@.len()),
        |i: int| snapshot_text(all@[all@.len() - 1 - i]),
    );
    assert(texts(lines@) =~= rows.take(0));
    for i in 0..count
        invariant
            total == all@.len(),
            count == shown_count(all@.len()),
            rows == Seq::new(
                shown_count(all@.len()),
                |i: int| snapshot_text(all@[all@.len() - 1 - i]),
            ),
            texts(lines@) == rows.take(i as int),
    {
        let ghost had = lines@;
        let line = admin_snapshot(&all[total - 1 - i]);
        lines.push(line);
        proof {
            text::lemma_texts_push(had, line);
            assert(rows.take(i + 1) =~= rows.take(i as int).push(rows[i as int]));
        }
    }
    assert(rows.take(count as int) =~= rows);
    text::join(&lines, "\n")
}

/// The admin page for these slots.
pub open spec fn admin_text(
    slots: Seq<SlotView>,
    book: BookView,
    snapshots: Seq<SystemSnapshot>,
    live: Map<Seq<char>, u64>,
    sessions: u64,
    banner: Seq<char>,
) -> Seq<char> {
    ADMIN_HEAD@ + banner + ADMIN_COMPONENTS@ + given(
        slots.len() == 0,
        "<p class=note>No components have been built yet.</p>"@,
    ) + sections_text(slots, book, live) + ADMIN_SNAPSHOTS@ + or_else(
        snapshots_text(snapshots),
        "<tr><td colspan=4><em>none yet</em></td></tr>"@,
    ) + ADMIN_COUNT@ + decimal(sessions as nat) + ADMIN_TAIL@
}

/// The admin page for these slots.
pub fn render_slots(
    slots: &Vec<Slot>,
    book: &Revisions,
    live: &Table<u64>,
    sessions: u64,
    banner: &str,
) -> (r: String)
    ensures
        r@ == admin_text(slot_views(slots@), book@, book.shots(), live@, sessions, banner@),
{
    let mut sections = String::new();
    for i in 0..slots.len()
        invariant
            sections@ == sections_text(slot_views(slots@).take(i as int), book@, live@),
    {
        let key = slots[i].key();
        let rows = book.history(&slots[i]);
        let at = match live.get(key.as_str()) {
            Some(n) => Some(*n),
            None => None,
        };
        sections.append(admin_section(key.as_str(), &rows, at).as_str());
        proof {
            let head = slot_views(slots@).take(i + 1);
            assert(head.drop_last() =~= slot_views(slots@).take(i as int));
            assert(head.last() == slots@[i as int]@);
        }
    }
    assert(slot_views(slots@).take(slots@.len() as int) =~= slot_views(slots@));
    let mut page = ADMIN_HEAD.to_owned().concat(banner).concat(ADMIN_COMPONENTS);
    append_when(
        &mut page,
        slots.len() == 0,
        "<p class=note>No components have been built yet.</p>",
    );
    let shown = admin_snapshots(book.snapshots());
    let rows = if text::is_empty(shown.as_str()) {
        "<tr><td colspan=4><em>none yet</em></td></tr>".to_owned()
    } else {
        shown
    };
    page.concat(sections.as_str()).concat(ADMIN_SNAPSHOTS).concat(rows.as_str()).concat(
        ADMIN_COUNT,
    ).concat(number(sessions).as_str()).concat(ADMIN_TAIL)
}

/// The admin page. `live` is the revision each slot runs, by its key.
pub fn render_admin(
    book: &Revisions,
    shelf: &Shelf,
    live: &Table<u64>,
    sessions: u64,
    banner: &str,
) -> (r: String)
    ensures
        r@ == admin_text(
            slots_named(arranged(shelf_keys(*shelf))),
            book@,
            book.shots(),
            live@,
            sessions,
            banner@,
        ),
{
    let slots = book.slots_with_history(shelf);
    render_slots(&slots, book, live, sessions, banner)
}

// --- the manual override ----------------------------------------------------

/// What the form of the admin page asks for.
#[derive(Debug, PartialEq, Eq)]
pub enum Override {
    /// Back to a revision of a slot, or to its latest good one.
    Slot(Slot, Option<u64>),
    /// Back to a snapshot.
    System(u64),
    /// Nothing that makes sense.
    Refused(String),
}

/// What the form of the admin page asks for, as text.
pub enum OverrideView {
    /// Back to a revision of a slot, or to its latest good one.
    Slot(SlotView, Option<u64>),
    /// Back to a snapshot.
    System(u64),
    /// Nothing that makes sense.
    Refused(Seq<char>),
}

impl View for Override {
    type V = OverrideView;

    open spec fn view(&self) -> OverrideView {
        match self {
            Override::Slot(s, r) => OverrideView::Slot(s@, *r),
            Override::System(id) => OverrideView::System(*id),
            Override::Refused(e) => OverrideView::Refused(e@),
        }
    }
}

/// A number as it is typed, if it is one.
pub open spec fn typed_number(s: Seq<char>) -> Option<u64> {
    match unsigned_value(s, u64::MAX as nat) {
        Some(n) => Some(n as u64),
        None => None,
    }
}

/// The revision a form names; one left blank, or no number, is none.
pub open spec fn form_revision(revision: Option<Seq<char>>) -> Option<u64> {
    match revision {
        Some(r) => typed_number(trimmed(r)),
        None => None,
    }
}

/// What the form of the admin page asks for.
pub open spec fn override_of(target: Seq<char>, revision: Option<Seq<char>>) -> OverrideView {
    match after_prefix(target, "system:"@) {
        Some(id) => match typed_number(id) {
            Some(n) => OverrideView::System(n),
            None => OverrideView::Refused("bad snapshot id"@),
        },
        None => match slot_named(target) {
            Some(slot) => OverrideView::Slot(slot, form_revision(revision)),
            None => OverrideView::Refused("unknown slot key: "@ + target),
        },
    }
}

/// What the form of the admin page asks for.
pub fn read_override(target: &str, revision: &Option<String>) -> (r: Override)
    ensures
        r@ == override_of(target@, text_of(*revision)),
{
    let revision = match revision {
        Some(s) => text::parse_unsigned(text::trim(s.as_str()).as_str(), u64::MAX),
        None => None,
    };
    match text::strip_prefix(target, "system:") {
        Some(id) => match text::parse_unsigned(id.as_str(), u64::MAX) {
            Some(n) => Override::System(n),
            None => Override::Refused("bad snapshot id".to_owned()),
        },
        None => match Slot::parse(target) {
            Ok(slot) => Override::Slot(slot, revision),
            Err(e) => Override::Refused(e),
        },
    }
}

/// What the admin page says of an override.
pub open spec fn banner_text(result: Result<String, String>) -> Seq<char> {
    match result {
        Ok(message) => "<p class=\"banner ok\">"@ + escaped(message@) + "</p>"@,
        Err(e) => "<p class=\"banner bad\">rollback failed: "@ + escaped(e@) + "</p>"@,
    }
}

/// What the admin page says of an override.
pub fn banner(result: &Result<String, String>) -> (r: String)
    ensures
        r@ == banner_text(*result),
{
    match result {
        Ok(message) => "<p class=\"banner ok\">".to_owned().concat(
            html_escape(message.as_str()).as_str(),
        ).concat("</p>"),
        Err(e) => "<p class=\"banner bad\">rollback failed: ".to_owned().concat(
            html_escape(e.as_str()).as_str(),
        ).concat("</p>"),
    }
}

/// Escaping goes character by character: the three that would be read as markup are
/// written out, and every other stays.
pub proof fn law_escaping_goes_by_character(a: Seq<char>, b: Seq<char>, c: char)
    ensures
        escaped(a + b) == escaped(a) + escaped(b),
        escaped(seq![c]) == if c == '&' {
            "&amp;"@
        } else if c == '<' {
            "&lt;"@
        } else if c == '>' {
            "&gt;"@
        } else {
            seq![c]
        },
{
    lemma_escaped_add(a, b);
    assert(seq![c].drop_last() =~= Seq::<char>::empty());
    assert(escaped(Seq::<char>::empty()) == Seq::<char>::empty());
    assert(escaped(seq![c]) =~= escaped_char(c));
}

proof fn lemma_escaped_add(a: Seq<char>, b: Seq<char>)
    ensures
        escaped(a + b) == escaped(a) + escaped(b),
    decreases b.len(),
{
    if b.len() == 0 {
        assert(a + b =~= a);
        assert(escaped(a) + escaped(b) =~= escaped(a));
    } else {
        assert((a + b).drop_last() =~= a + b.drop_last());
        assert((a + b).last() == b.last());
        lemma_escaped_add(a, b.drop_last());
        assert(escaped(a) + escaped(b.drop_last()) + escaped_char(b.last()) =~= escaped(a) + (
        escaped(b.drop_last()) + escaped_char(b.last())));
    }
}

/// A form says what to go back to in a way that reads back: a snapshot by its number, a
/// slot by its key with the revision's number, or none for the latest good one; and
/// what names neither is refused by name.
pub proof fn law_a_form_says_what_to_go_back_to(slot: SlotView, n: u64, target: Seq<char>)
    requires
        crate::slot::has_name(slot),
    ensures
        override_of("system:"@ + decimal(n as nat), None) == OverrideView::System(n),
        override_of(slot_key(slot), Some(decimal(n as nat))) == OverrideView::Slot(slot, Some(n)),
        override_of(slot_key(slot), None) == OverrideView::Slot(slot, None),
        !text::begins(target, "system:"@) && slot_named(target) is None ==> (override_of(
            target,
            None,
        ) matches OverrideView::Refused(e) && text::ends(e, target)),
{
    let d = decimal(n as nat);
    let all = "system:"@ + d;
    reveal_strlit("system:");
    assert(all.subrange(0, 7) =~= "system:"@);
    assert(all.skip(7) =~= d);
    text::law_numbers_read_back(n as nat, u64::MAX as nat);
    crate::slot::law_key_round_trip(slot);
    let key = slot_key(slot);
    assert(!text::begins(key, "system:"@)) by {
        reveal_strlit("agent");
        reveal_strlit("gateway/");
        reveal_strlit("tool/");
        if text::begins(key, "system:"@) {
            assert(key.subrange(0, 7)[0] == "system:"@[0]);
        }
    }
    text::lemma_decimal_digits(n as nat);
    assert(d.len() > 0) by {
        if d.len() == 0 {
            assert(text::unsigned_value(d, u64::MAX as nat) is None || d.len() > 0);
        }
    }
    assert(!text::is_white(d[0]) && !text::is_white(d.last())) by {
        assert('0' <= d[0] <= '9');
        assert('0' <= d[d.len() - 1] <= '9');
    }
    text::lemma_trimmed_keeps(d);
    let e = "unknown slot key: "@ + target;
    assert(e.subrange(e.len() - target.len(), e.len() as int) =~= target);
}

/// Each revision has a row with its number, its state, where it came from and its note;
/// the one that runs says so and cannot be restored, and every other can, by its slot
/// and number.
pub proof fn law_a_row_shows_its_revision(key: Seq<char>, row: RowView, live: Option<u64>)
    ensures
        text::begins(row_text(key, row, live), "<tr><td>r"@ + zero_padded(row.revision as nat, 4)),
        text::occurs(row_text(key, row, live), status_word(row.status)),
        text::occurs(row_text(key, row, live), origin_word(row.origin)),
        text::occurs(row_text(key, row, live), escaped(row.note)),
        live == Some(row.revision) ==> text::occurs(row_text(key, row, live), " &larr; live"@),
        live != Some(row.revision) ==> text::occurs(
            row_text(key, row, live),
            restore_form(key, row.revision),
        ),
        text::occurs(restore_form(key, row.revision), escaped(key)),
        text::occurs(restore_form(key, row.revision), decimal(row.revision as nat)),
{
    let head = "<tr><td>r"@ + zero_padded(row.revision as nat, 4);
    let running = live == Some(row.revision);
    let mark = given(running, " &larr; live"@);
    let s = status_word(row.status);
    let o = origin_word(row.origin);
    let n = escaped(row.note);
    let form = given(!running, restore_form(key, row.revision));
    // The row, piece by piece.
    let r1 = head + mark;
    let r2 = r1 + "</td><td class=\""@;
    let r3 = r2 + s;
    let r4 = r3 + "\">"@;
    let r5 = r4 + s;
    let r6 = r5 + "</td><td>"@;
    let r7 = r6 + o;
    let r8 = r7 + "</td><td class=note>"@;
    let r9 = r8 + n;
    let r10 = r9 + "</td><td>"@;
    let r11 = r10 + form;
    let row_end = "</td></tr>"@;
    assert(row_text(key, row, live) == r11 + row_end);
    // The number, and whether it runs.
    text::lemma_more_follows(head, head, mark);
    text::lemma_at_the_end(head, mark);
    text::lemma_more_follows(r1, head, "</td><td class=\""@);
    text::lemma_more_follows(r1, mark, "</td><td class=\""@);
    text::lemma_more_follows(r2, head, s);
    text::lemma_more_follows(r2, mark, s);
    text::lemma_at_the_end(r2, s);
    lemma_kept(r3, head, "\">"@, s, "</td><td>"@);
    lemma_kept(r3, mark, "\">"@, s, "</td><td>"@);
    lemma_kept(r3, s, "\">"@, s, "</td><td>"@);
    lemma_kept(r6, head, o, "</td><td class=note>"@, n);
    lemma_kept(r6, mark, o, "</td><td class=note>"@, n);
    lemma_kept(r6, s, o, "</td><td class=note>"@, n);
    lemma_kept(r9, head, "</td><td>"@, form, row_end);
    lemma_kept(r9, mark, "</td><td>"@, form, row_end);
    lemma_kept(r9, s, "</td><td>"@, form, row_end);
    // Where it came from, and its note.
    text::lemma_at_the_end(r6, o);
    text::lemma_more_follows(r7, o, "</td><td class=note>"@);
    text::lemma_more_follows(r8, o, n);
    text::lemma_at_the_end(r8, n);
    lemma_kept(r9, o, "</td><td>"@, form, row_end);
    lemma_kept(r9, n, "</td><td>"@, form, row_end);
    // The way back.
    text::lemma_at_the_end(r10, form);
    text::lemma_more_follows(r11, form, row_end);
    let k = escaped(key);
    let m = decimal(row.revision as nat);
    text::lemma_at_the_end(RESTORE_HEAD@, k);
    lemma_kept(RESTORE_HEAD@ + k, k, RESTORE_REVISION@, m, RESTORE_TAIL@);
    text::lemma_at_the_end(RESTORE_HEAD@ + k + RESTORE_REVISION@, m);
    text::lemma_more_follows(RESTORE_HEAD@ + k + RESTORE_REVISION@ + m, m, RESTORE_TAIL@);
}

proof fn lemma_kept(s: Seq<char>, part: Seq<char>, a: Seq<char>, b: Seq<char>, c: Seq<char>)
    ensures
        text::occurs(s, part) ==> text::occurs(s + a + b + c, part),
        text::begins(s, part) ==> text::begins(s + a + b + c, part),
{
    text::lemma_more_follows(s, part, a);
    text::lemma_more_follows(s + a, part, b);
    text::lemma_more_follows(s + a + b, part, c);
}

/// A slot's section holds every one of its revisions, and the newest comes first.
pub proof fn law_a_section_shows_every_revision(
    key: Seq<char>,
    rows: Seq<RowView>,
    live: Option<u64>,
    i: int,
)
    requires
        0 <= i < rows.len(),
    ensures
        text::occurs(section_text(key, rows, live), row_text(key, rows[i], live)),
        text::occurs(section_text(key, rows, live), escaped(key)),
        text::begins(rows_text(key, rows, live), row_text(key, rows.last(), live)),
{
    let items = Seq::new(rows.len(), |k: int| row_text(key, rows[rows.len() - 1 - k], live));
    let all = rows_text(key, rows, live);
    text::law_joining_loses_nothing(items, "\n"@, rows.len() - 1 - i);
    assert(items[rows.len() - 1 - i] == row_text(key, rows[i], live));
    assert(items[0] == row_text(key, rows.last(), live));
    let first = items[0];
    if rows.len() == 1 {
        assert(items =~= seq![first]);
        text::law_joining_adds_up(items, items, "\n"@);
        assert(all == first);
        assert(all.subrange(0, first.len() as int) =~= first);
    } else {
        let one = items.take(1);
        let rest = items.skip(1);
        assert(one + rest =~= items);
        text::law_joining_adds_up(one, rest, "\n"@);
        assert(seq![one[0]] =~= one);
        assert(all.subrange(0, first.len() as int) =~= first);
    }
    assert(first.len() > 0) by {
        reveal_strlit("<tr><td>r");
        assert(first.len() >= "<tr><td>r"@.len());
    }
    assert(all.len() > 0);
    text::lemma_occurs_within(
        SECTION_HEAD@ + escaped(key) + SECTION_ROWS@,
        all,
        SECTION_TAIL@,
        row_text(key, rows[i], live),
    );
    text::lemma_occurs_between(SECTION_HEAD@, escaped(key), SECTION_ROWS@ + all + SECTION_TAIL@);
    assert(section_text(key, rows, live) =~= SECTION_HEAD@ + escaped(key) + (SECTION_ROWS@ + all
        + SECTION_TAIL@));
}

/// Every slot has its section, in order, with its own history and its own live revision.
pub proof fn law_every_slot_has_its_section(
    before: Seq<SlotView>,
    slot: SlotView,
    after: Seq<SlotView>,
    book: BookView,
    live: Map<Seq<char>, u64>,
)
    ensures
        sections_text(before + seq![slot] + after, book, live) == sections_text(before, book, live)
            + section_text(
            slot_key(slot),
            book.history(slot_key(slot)),
            if live.contains_key(slot_key(slot)) {
                Some(live[slot_key(slot)])
            } else {
                None
            },
        ) + sections_text(after, book, live),
{
    let one = seq![slot];
    lemma_sections_add(before + one, after, book, live);
    lemma_sections_add(before, one, book, live);
    assert(one.drop_last() =~= Seq::<SlotView>::empty());
    assert(one.last() == slot);
    assert(sections_text(Seq::<SlotView>::empty(), book, live) == Seq::<char>::empty());
    let key = slot_key(slot);
    assert(sections_text(one, book, live) =~= section_text(
        key,
        book.history(key),
        running(live, key),
    ));
}

proof fn lemma_sections_add(
    a: Seq<SlotView>,
    b: Seq<SlotView>,
    book: BookView,
    live: Map<Seq<char>, u64>,
)
    ensures
        sections_text(a + b, book, live) == sections_text(a, book, live) + sections_text(
            b,
            book,
            live,
        ),
    decreases b.len(),
{
    if b.len() == 0 {
        assert(a + b =~= a);
        assert(sections_text(a, book, live) + sections_text(b, book, live) =~= sections_text(
            a,
            book,
            live,
        ));
    } else {
        assert((a + b).drop_last() =~= a + b.drop_last());
        assert((a + b).last() == b.last());
        lemma_sections_add(a, b.drop_last(), book, live);
        let key = slot_key(b.last());
        let s = section_text(key, book.history(key), running(live, key));
        assert(sections_text(a, book, live) + sections_text(b.drop_last(), book, live) + s
            =~= sections_text(a, book, live) + (sections_text(b.drop_last(), book, live) + s));
    }
}

/// The newest snapshots are shown, up to as many as fit, each with its number, its cause
/// and what it holds; and the page holds the banner, the sections, the snapshots and
/// the number of sessions.
pub proof fn law_the_page_shows_everything(
    slots: Seq<SlotView>,
    book: BookView,
    snapshots: Seq<SystemSnapshot>,
    live: Map<Seq<char>, u64>,
    sessions: u64,
    banner: Seq<char>,
    i: int,
)
    ensures
        ({
            let page = admin_text(slots, book, snapshots, live, sessions, banner);
            &&& text::occurs(page, banner)
            &&& text::occurs(page, sections_text(slots, book, live))
            &&& text::occurs(page, decimal(sessions as nat))
            &&& snapshots.len() - SHOWN_SNAPSHOTS <= i < snapshots.len() && 0 <= i ==> text::occurs(
                page,
                snapshot_text(snapshots[i]),
            )
        }),
{
    let page = admin_text(slots, book, snapshots, live, sessions, banner);
    let none = given(
        slots.len() == 0,
        "<p class=note>No components have been built yet.</p>"@,
    );
    let body = sections_text(slots, book, live);
    let shots = or_else(
        snapshots_text(snapshots),
        "<tr><td colspan=4><em>none yet</em></td></tr>"@,
    );
    let n = decimal(sessions as nat);
    let a = ADMIN_HEAD@ + banner + ADMIN_COMPONENTS@ + none;
    let b = a + body + ADMIN_SNAPSHOTS@;
    let c = b + shots + ADMIN_COUNT@;
    assert(page =~= c + n + ADMIN_TAIL@);
    text::lemma_occurs_between(c, n, ADMIN_TAIL@);
    let after_shots = ADMIN_COUNT@ + n + ADMIN_TAIL@;
    assert(page =~= b + shots + after_shots);
    let after_body = ADMIN_SNAPSHOTS@ + shots + after_shots;
    text::lemma_occurs_between(a, body, after_body);
    assert(page =~= a + body + after_body);
    let after_banner = ADMIN_COMPONENTS@ + none + body + after_body;
    text::lemma_occurs_between(ADMIN_HEAD@, banner, after_banner);
    assert(page =~= ADMIN_HEAD@ + banner + after_banner);
    if snapshots.len() - SHOWN_SNAPSHOTS <= i < snapshots.len() && 0 <= i {
        let items = Seq::new(
            shown_count(snapshots.len()),
            |k: int| snapshot_text(snapshots[snapshots.len() - 1 - k]),
        );
        let k = snapshots.len() - 1 - i;
        assert(items[k] == snapshot_text(snapshots[i]));
        text::law_joining_loses_nothing(items, "\n"@, k);
        let all = snapshots_text(snapshots);
        reveal_strlit("<tr><td>#");
        assert(snapshot_text(snapshots[i]).len() >= "<tr><td>#"@.len());
        assert(all.len() > 0) by {
            let at = choose|at: int| text::occurs_at(all, items[k], at);
            assert(at + items[k].len() <= all.len());
        }
        assert(shots == all);
        text::lemma_occurs_within(b, all, after_shots, items[k]);
    }
}

/// A snapshot's row gives its number, its cause and what it holds, and goes back to it
/// by its number.
pub proof fn law_a_snapshot_row_shows_its_snapshot(s: SystemSnapshot)
    ensures
        text::occurs(snapshot_text(s), escaped(s.cause@)),
        text::occurs(snapshot_text(s), escaped(slots_line(s.slots.key_list(), s.slots@))),
        text::begins(snapshot_text(s), "<tr><td>#"@ + decimal(s.id as nat)),
        text::occurs(
            snapshot_text(s),
            RESTORE_ALL_HEAD@ + decimal(s.id as nat) + RESTORE_ALL_TAIL@,
        ),
{
    let n = decimal(s.id as nat);
    let cause = escaped(s.cause@);
    let line = escaped(slots_line(s.slots.key_list(), s.slots@));
    let form = RESTORE_ALL_HEAD@ + n + RESTORE_ALL_TAIL@;
    let all = snapshot_text(s);
    let head = "<tr><td>#"@ + n;
    let a = head + "</td><td class=note>"@;
    let b = a + cause + "</td><td class=note>"@;
    let c = b + line + "</td><td>"@;
    assert(all =~= c + form + "</td></tr>"@);
    assert(all.subrange(0, head.len() as int) =~= head);
    text::lemma_occurs_between(c, form, "</td></tr>"@);
    let after_line = "</td><td>"@ + form + "</td></tr>"@;
    text::lemma_occurs_between(b, line, after_line);
    assert(all =~= b + line + after_line);
    let after_cause = "</td><td class=note>"@ + line + after_line;
    text::lemma_occurs_between(a, cause, after_cause);
    assert(all =~= a + cause + after_cause);
}

/// A snapshot's line gives every slot with the revision it ran.
pub proof fn law_a_slots_line_gives_every_revision(
    keys: Seq<Seq<char>>,
    slots: Map<Seq<char>, u64>,
    i: int,
)
    requires
        0 <= i < keys.len(),
    ensures
        text::occurs(
            slots_line(keys, slots),
            keys[i] + "=r"@ + zero_padded(slots[keys[i]] as nat, 4),
        ),
{
    let items = keys.map_values(|k: Seq<char>| k + "=r"@ + zero_padded(slots[k] as nat, 4));
    text::law_joining_loses_nothing(items, ", "@, i);
}

/// What became of a rollback is shown with what was said of it, and as a failure only
/// where it was one.
pub proof fn law_a_banner_says_what_became_of_it(result: Result<String, String>)
    ensures
        match result {
            Ok(m) => text::begins(banner_text(result), "<p class=\"banner ok\">"@)
                && text::occurs(banner_text(result), escaped(m@)),
            Err(e) => text::begins(banner_text(result), "<p class=\"banner bad\">"@)
                && text::occurs(banner_text(result), escaped(e@)),
        },
{
    match result {
        Ok(m) => {
            let head = "<p class=\"banner ok\">"@;
            text::lemma_occurs_between(head, escaped(m@), "</p>"@);
            let all = banner_text(result);
            assert(all.subrange(0, head.len() as int) =~= head);
        },
        Err(e) => {
            let head = "<p class=\"banner bad\">rollback failed: "@;
            text::lemma_occurs_between(head, escaped(e@), "</p>"@);
            let all = banner_text(result);
            reveal_strlit("<p class=\"banner bad\">rollback failed: ");
            reveal_strlit("<p class=\"banner bad\">");
            assert(all.subrange(0, 22) =~= "<p class=\"banner bad\">"@);
        },
    }
}

} // verus!
