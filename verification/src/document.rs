//! TOML documents, as far as the library looks into them: tables, and values
//! that are not tables.
use vstd::prelude::*;

use crate::table::{holds_entries, Table};
use crate::text::text_of;

verus! {

/// `toml::Value`: a TOML document, opaque here.
#[verifier::external_type_specification]
#[verifier::external_body]
pub struct ExTomlValue(toml::Value);

/// What a TOML document says.
pub enum TomlView {
    /// A table.
    Table(Map<Seq<char>, TomlView>),
    /// Anything else.
    Leaf(toml::Value),
}

/// What a `toml::Value` says.
pub uninterp spec fn toml_tree(v: toml::Value) -> TomlView;

/// The text `serde_json::to_string` writes for a TOML document, if it writes
/// one.
pub uninterp spec fn toml_json(tree: TomlView) -> Option<Seq<char>>;

/// What `toml::from_str::<toml::Value>` makes of a text: the document it
/// spells, or the message that says why it spells none.
pub uninterp spec fn parsed_toml(text: Seq<char>) -> Result<TomlView, Seq<char>>;

/// What the fields of a table say, the later of two with one name counting.
pub open spec fn entry_trees(fields: Seq<(String, toml::Value)>) -> Map<Seq<char>, TomlView>
    decreases fields.len(),
{
    if fields.len() == 0 {
        Map::empty()
    } else {
        entry_trees(fields.drop_last()).insert(fields.last().0@, toml_tree(fields.last().1))
    }
}

/// What each document of a map says.
pub open spec fn tree_map(m: Map<Seq<char>, toml::Value>) -> Map<Seq<char>, TomlView> {
    m.map_values(|v: toml::Value| toml_tree(v))
}

spec fn distinct(fields: Seq<(String, toml::Value)>) -> bool {
    forall|i: int, j: int|
        0 <= i < j < fields.len() ==> #[trigger] fields[i].0@ != #[trigger] fields[j].0@
}

/// Takes a `toml::Value` apart: the fields of a table, whose names are all
/// different, or the value itself.
#[verifier::external_body]
fn open_table(v: toml::Value) -> (r: Result<Vec<(String, toml::Value)>, toml::Value>)
    ensures
        match r {
            Ok(fields) => toml_tree(v) == TomlView::Table(entry_trees(fields@)) && distinct(
                fields@,
            ),
            Err(leaf) => leaf == v && toml_tree(v) == TomlView::Leaf(v),
        },
{
    match v {
        toml::Value::Table(map) => Ok(map.into_iter().collect()),
        other => Err(other),
    }
}

/// Puts a table together from its fields. Of two with one name, collecting
/// into the map keeps the later.
#[verifier::external_body]
fn close_table(fields: Vec<(String, toml::Value)>) -> (v: toml::Value)
    ensures
        toml_tree(v) == TomlView::Table(entry_trees(fields@)),
{
    toml::Value::Table(fields.into_iter().collect())
}

/// `serde_json::to_string` on a TOML document, or nothing where it fails.
/// Tables are kept in the order of their names, so the text depends on what
/// the document says alone.
#[verifier::external_body]
fn json_text(v: &toml::Value) -> (r: Option<String>)
    ensures
        text_of(r) == toml_json(toml_tree(*v)),
{
    serde_json::to_string(v).ok()
}

/// `toml::from_str::<toml::Value>`, with the error as its message.
#[verifier::external_body]
fn parse_value(text: &str) -> (r: Result<toml::Value, String>)
    ensures
        match r {
            Ok(v) => parsed_toml(text@) == Ok::<TomlView, Seq<char>>(toml_tree(v)),
            Err(e) => parsed_toml(text@) == Err::<TomlView, Seq<char>>(e@),
        },
{
    toml::from_str::<toml::Value>(text).map_err(|e| e.to_string())
}

/// The document a text spells, or the message that says why it spells none.
pub fn parse(text: &str) -> (r: Result<toml::Value, String>)
    ensures
        match r {
            Ok(v) => parsed_toml(text@) == Ok::<TomlView, Seq<char>>(toml_tree(v)),
            Err(e) => parsed_toml(text@) == Err::<TomlView, Seq<char>>(e@),
        },
{
    parse_value(text)
}

/// A table without fields.
pub fn empty_table() -> (v: toml::Value)
    ensures
        toml_tree(v) == TomlView::Table(Map::empty()),
{
    close_table(Vec::new())
}

/// A document as JSON, or the empty object where there is none or it cannot be
/// written.
pub open spec fn json_or_empty(v: Option<TomlView>) -> Seq<char> {
    match v {
        Some(tree) => match toml_json(tree) {
            Some(s) => s,
            None => "{}"@,
        },
        None => "{}"@,
    }
}

/// A document as JSON, or the empty object.
pub fn to_json(v: Option<&toml::Value>) -> (r: String)
    ensures
        r@ == json_or_empty(
            match v {
                Some(v) => Some(toml_tree(*v)),
                None => None,
            },
        ),
{
    match v {
        Some(v) => match json_text(v) {
            Some(s) => s,
            None => "{}".to_owned(),
        },
        None => "{}".to_owned(),
    }
}

// --- merging ----------------------------------------------------------------

/// A document with another laid over it. Tables are merged field by field, so
/// an overlay can set one key of one section without restating the section;
/// anything else is replaced.
pub open spec fn merged(base: TomlView, overlay: TomlView) -> TomlView
    decreases overlay,
{
    match (base, overlay) {
        (TomlView::Table(b), TomlView::Table(o)) => TomlView::Table(
            Map::new(
                |k: Seq<char>| b.contains_key(k) || o.contains_key(k),
                |k: Seq<char>|
                    if !o.contains_key(k) {
                        b[k]
                    } else if !b.contains_key(k) {
                        o[k]
                    } else {
                        merged(b[k], o[k])
                    },
            ),
        ),
        _ => overlay,
    }
}

/// The fields of one table with those of another laid over them.
pub open spec fn merged_fields(
    b: Map<Seq<char>, TomlView>,
    o: Map<Seq<char>, TomlView>,
) -> Map<Seq<char>, TomlView> {
    Map::new(
        |k: Seq<char>| b.contains_key(k) || o.contains_key(k),
        |k: Seq<char>|
            if !o.contains_key(k) {
                b[k]
            } else if !b.contains_key(k) {
                o[k]
            } else {
                merged(b[k], o[k])
            },
    )
}

/// Two tables merge field by field.
pub proof fn lemma_merged_tables(b: Map<Seq<char>, TomlView>, o: Map<Seq<char>, TomlView>)
    ensures
        merged(TomlView::Table(b), TomlView::Table(o)) == TomlView::Table(merged_fields(b, o)),
{
    let m = merged(TomlView::Table(b), TomlView::Table(o));
    assert(m->Table_0 =~= merged_fields(b, o));
}

proof fn lemma_entries_finite(fields: Seq<(String, toml::Value)>)
    ensures
        entry_trees(fields).dom().finite(),
    decreases fields.len(),
{
    if fields.len() > 0 {
        lemma_entries_finite(fields.drop_last());
    }
}

proof fn lemma_entry(fields: Seq<(String, toml::Value)>, i: int)
    requires
        distinct(fields),
        0 <= i < fields.len(),
    ensures
        entry_trees(fields).contains_key(fields[i].0@),
        entry_trees(fields)[fields[i].0@] == toml_tree(fields[i].1),
    decreases fields.len(),
{
    if i < fields.len() - 1 {
        let head = fields.drop_last();
        assert(distinct(head)) by {
            assert forall|a: int, b: int| 0 <= a < b < head.len() implies #[trigger] head[a].0@
                != #[trigger] head[b].0@ by {
                assert(fields[a].0@ != fields[b].0@);
            }
        }
        lemma_entry(head, i);
        assert(fields[i].0@ != fields[fields.len() - 1].0@);
    }
}

proof fn lemma_entry_names(fields: Seq<(String, toml::Value)>, k: Seq<char>)
    ensures
        entry_trees(fields).contains_key(k) ==> exists|i: int|
            0 <= i < fields.len() && (#[trigger] fields[i]).0@ == k,
    decreases fields.len(),
{
    if fields.len() > 0 && entry_trees(fields).contains_key(k) {
        if fields.last().0@ == k {
            assert(fields[fields.len() - 1].0@ == k);
        } else {
            lemma_entry_names(fields.drop_last(), k);
            let i = choose|i: int|
                0 <= i < fields.drop_last().len() && (#[trigger] fields.drop_last()[i]).0@ == k;
            assert(fields[i].0@ == k);
        }
    }
}

proof fn lemma_entries_of_map(
    fields: Seq<(String, toml::Value)>,
    m: Map<Seq<char>, toml::Value>,
)
    requires
        holds_entries(fields, m),
    ensures
        entry_trees(fields) == tree_map(m),
{
    let t = entry_trees(fields);
    assert forall|k: Seq<char>| t.contains_key(k) == tree_map(m).contains_key(k) by {
        lemma_entry_names(fields, k);
        if t.contains_key(k) {
            let i = choose|i: int| 0 <= i < fields.len() && (#[trigger] fields[i]).0@ == k;
            assert(m.contains_key(fields[i].0@));
        }
        if m.contains_key(k) {
            let i = choose|i: int| 0 <= i < fields.len() && (#[trigger] fields[i]).0@ == k;
            lemma_entry(fields, i);
        }
    }
    assert forall|k: Seq<char>| t.contains_key(k) implies t[k] == tree_map(m)[k] by {
        lemma_entry_names(fields, k);
        let i = choose|i: int| 0 <= i < fields.len() && (#[trigger] fields[i]).0@ == k;
        lemma_entry(fields, i);
    }
    assert(t =~= tree_map(m));
}

/// Collects the fields of a table under their names.
fn table_of(fields: Vec<(String, toml::Value)>) -> (t: Table<toml::Value>)
    ensures
        tree_map(t@) == entry_trees(fields@),
{
    let ghost all = fields@;
    let mut left = fields;
    let mut back: Vec<(String, toml::Value)> = Vec::new();
    while left.len() > 0
        invariant
            left@ == all.take(left@.len() as int),
            left@.len() + back@.len() == all.len(),
            forall|i: int|
                0 <= i < back@.len() ==> #[trigger] back@[i] == all[all.len() - 1 - i],
        decreases left@.len(),
    {
        let item = left.pop().unwrap();
        assert(left@ =~= all.take(left@.len() as int));
        back.push(item);
    }
    let mut t: Table<toml::Value> = Table::new();
    assert(tree_map(t@) =~= Map::<Seq<char>, TomlView>::empty());
    assert(all.take(0) =~= Seq::<(String, toml::Value)>::empty());
    while back.len() > 0
        invariant
            back@.len() <= all.len(),
            forall|i: int|
                0 <= i < back@.len() ==> #[trigger] back@[i] == all[all.len() - 1 - i],
            tree_map(t@) == entry_trees(all.take(all.len() - back@.len())),
        decreases back@.len(),
    {
        let ghost waiting = back@;
        let ghost had = t@;
        let (name, value) = back.pop().unwrap();
        let ghost at = all.len() - back@.len() - 1;
        proof {
            assert(waiting[back@.len() as int] == all[at]);
            assert(all.take(at + 1).drop_last() =~= all.take(at));
            assert(all.take(at + 1).last() == all[at]);
            assert forall|i: int| 0 <= i < back@.len() implies #[trigger] back@[i] == all[all.len()
                - 1 - i] by {
                assert(back@[i] == waiting[i]);
            }
        }
        let _old = t.insert(name, value);
        assert(tree_map(t@) =~= tree_map(had).insert(name@, toml_tree(value)));
    }
    assert(all.take(all.len() as int) =~= all);
    t
}

fn merge_values(base: toml::Value, overlay: toml::Value) -> (r: toml::Value)
    ensures
        toml_tree(r) == merged(toml_tree(base), toml_tree(overlay)),
    decreases toml_tree(overlay),
{
    let over_fields = match open_table(overlay) {
        Ok(fields) => fields,
        Err(leaf) => return leaf,
    };
    let base_fields = match open_table(base) {
        Ok(fields) => fields,
        Err(_) => return close_table(over_fields),
    };
    let ghost o = over_fields@;
    let ghost om = entry_trees(o);
    let ghost bm = entry_trees(base_fields@);
    let mut t = table_of(base_fields);
    let mut left = over_fields;
    proof {
        lemma_entries_finite(o);
        assert(tree_map(t@) =~= merged_fields(bm, entry_trees(o.skip(o.len() as int)))) by {
            assert(o.skip(o.len() as int) =~= Seq::<(String, toml::Value)>::empty());
        }
    }
    while left.len() > 0
        invariant
            distinct(o),
            om == entry_trees(o),
            om.dom().finite(),
            toml_tree(overlay) == TomlView::Table(om),
            left@ == o.take(left@.len() as int),
            left@.len() <= o.len(),
            tree_map(t@) == merged_fields(bm, entry_trees(o.skip(left@.len() as int))),
        decreases left@.len(),
    {
        let (name, value) = left.pop().unwrap();
        let ghost at = left@.len() as int;
        let ghost had = t@;
        let ghost done = entry_trees(o.skip(at + 1));
        proof {
            assert(o[at] == (name, value));
            assert(left@ =~= o.take(at));
            lemma_entry(o, at);
            assert(decreases_to!(toml_tree(overlay) => toml_tree(overlay)->Table_0));
            assert(decreases_to!(om => om[name@]));
            lemma_skip(o, at);
            assert(tree_map(had) == merged_fields(bm, done));
            assert(had.contains_key(name@) == tree_map(had).contains_key(name@));
        }
        match t.remove(name.as_str()) {
            Some(existing) => {
                assert(tree_map(had)[name@] == toml_tree(existing));
                let value = merge_values(existing, value);
                let ghost v = toml_tree(value);
                let ghost key = name@;
                let _old = t.insert(name, value);
                assert(tree_map(t@) =~= tree_map(had).insert(key, v));
            },
            None => {
                let ghost v = toml_tree(value);
                let ghost key = name@;
                let _old = t.insert(name, value);
                assert(tree_map(t@) =~= tree_map(had).insert(key, v));
            },
        }
        assert(tree_map(t@) =~= merged_fields(bm, entry_trees(o.skip(at))));
    }
    assert(o.skip(0) =~= o);
    let entries = t.into_entries();
    proof {
        lemma_entries_of_map(entries@, t@);
        lemma_merged_tables(bm, om);
    }
    close_table(entries)
}

/// The fields from `at` on are the field at `at` laid over the ones after it,
/// and that name is not among those.
proof fn lemma_skip(fields: Seq<(String, toml::Value)>, at: int)
    requires
        distinct(fields),
        0 <= at < fields.len(),
    ensures
        !entry_trees(fields.skip(at + 1)).contains_key(fields[at].0@),
        entry_trees(fields.skip(at)) == entry_trees(fields.skip(at + 1)).insert(
            fields[at].0@,
            toml_tree(fields[at].1),
        ),
    decreases fields.len(),
{
    let rest = fields.skip(at + 1);
    lemma_entry_names(rest, fields[at].0@);
    if entry_trees(rest).contains_key(fields[at].0@) {
        let i = choose|i: int| 0 <= i < rest.len() && (#[trigger] rest[i]).0@ == fields[at].0@;
        assert(fields[at + 1 + i].0@ == fields[at].0@);
    }
    let from = fields.skip(at);
    if rest.len() == 0 {
        assert(from.drop_last() =~= Seq::<(String, toml::Value)>::empty());
        assert(from.last() == fields[at]);
        assert(entry_trees(from.drop_last()) =~= Map::<Seq<char>, TomlView>::empty());
        assert(entry_trees(rest) =~= Map::<Seq<char>, TomlView>::empty());
    } else {
        let head = fields.drop_last();
        assert(distinct(head)) by {
            assert forall|a: int, b: int| 0 <= a < b < head.len() implies #[trigger] head[a].0@
                != #[trigger] head[b].0@ by {
                assert(fields[a].0@ != fields[b].0@);
            }
        }
        lemma_skip(head, at);
        assert(from.drop_last() =~= head.skip(at));
        assert(rest.drop_last() =~= head.skip(at + 1));
        assert(from.last() == rest.last());
        assert(fields[at].0@ != fields[fields.len() - 1].0@);
        assert(head[at] == fields[at]);
        assert(entry_trees(from) =~= entry_trees(rest).insert(
            fields[at].0@,
            toml_tree(fields[at].1),
        ));
    }
}

/// Deep-merges `overlay` into `base`, with the overlay winning.
///
/// Recursive on tables so an overlay can set one key of one tool without
/// restating the whole section. Arrays are replaced rather than concatenated:
/// appending would make it impossible to shorten a list from the overlay.
pub fn merge_toml(base: &mut toml::Value, overlay: toml::Value)
    ensures
        toml_tree(*final(base)) == merged(toml_tree(*old(base)), toml_tree(overlay)),
{
    let mut taken = empty_table();
    std::mem::swap(&mut taken, base);
    *base = merge_values(taken, overlay);
}

// --- laws -------------------------------------------------------------------

/// What an overlay sets outright wins.
pub proof fn law_overlay_wins(base: TomlView, overlay: TomlView)
    requires
        overlay is Leaf || base is Leaf,
    ensures
        merged(base, overlay) == overlay,
{
}

/// A key that an overlay does not mention keeps its value.
pub proof fn law_overlay_leaves_the_rest_alone(
    base: Map<Seq<char>, TomlView>,
    overlay: Map<Seq<char>, TomlView>,
    key: Seq<char>,
)
    requires
        base.contains_key(key),
        !overlay.contains_key(key),
    ensures
        merged(TomlView::Table(base), TomlView::Table(overlay)) matches TomlView::Table(m)
            && m.contains_key(key) && m[key] == base[key],
{
}

/// An overlay without fields changes nothing.
pub proof fn law_empty_overlay_changes_nothing(base: Map<Seq<char>, TomlView>)
    ensures
        merged(TomlView::Table(base), TomlView::Table(Map::empty())) == TomlView::Table(base),
{
    lemma_merged_tables(base, Map::empty());
    assert(merged_fields(base, Map::empty()) =~= base);
}

/// A key of both tables holds what the two values come to together, and a key of the
/// overlay alone what the overlay says; no other key is there.
pub proof fn law_an_overlay_goes_key_by_key(
    base: Map<Seq<char>, TomlView>,
    overlay: Map<Seq<char>, TomlView>,
    key: Seq<char>,
)
    ensures
        merged(TomlView::Table(base), TomlView::Table(overlay)) matches TomlView::Table(m) && {
            &&& m.contains_key(key) <==> base.contains_key(key) || overlay.contains_key(key)
            &&& overlay.contains_key(key) && !base.contains_key(key) ==> m[key] == overlay[key]
            &&& overlay.contains_key(key) && overlay[key] is Leaf ==> m[key] == overlay[key]
            &&& overlay.contains_key(key) && base.contains_key(key) && base[key] is Leaf ==> m[key]
                == overlay[key]
            &&& overlay.contains_key(key) && base.contains_key(key) ==> m[key] == merged(
                base[key],
                overlay[key],
            )
        },
{
    lemma_merged_tables(base, overlay);
}

/// Laying the same document over again changes nothing.
pub proof fn law_an_overlay_counts_once(base: TomlView, overlay: TomlView)
    ensures
        merged(merged(base, overlay), overlay) == merged(base, overlay),
    decreases overlay,
{
    match (base, overlay) {
        (TomlView::Table(b), TomlView::Table(o)) => {
            lemma_merged_tables(b, o);
            let m = merged_fields(b, o);
            lemma_merged_tables(m, o);
            assert forall|k: Seq<char>| m.contains_key(k) implies #[trigger] merged_fields(m, o)[k]
                == m[k] by {
                if o.contains_key(k) {
                    if b.contains_key(k) {
                        law_an_overlay_counts_once(b[k], o[k]);
                    } else {
                        lemma_over_itself(o[k]);
                    }
                }
            }
            assert(merged_fields(m, o) =~= m);
        },
        (TomlView::Leaf(_), TomlView::Table(_)) => {
            lemma_over_itself(overlay);
        },
        _ => {},
    }
}

proof fn lemma_over_itself(t: TomlView)
    ensures
        merged(t, t) == t,
    decreases t,
{
    if let TomlView::Table(m) = t {
        lemma_merged_tables(m, m);
        assert forall|k: Seq<char>| m.contains_key(k) implies #[trigger] merged_fields(m, m)[k]
            == m[k] by {
            lemma_over_itself(m[k]);
        }
        assert(merged_fields(m, m) =~= m);
    }
}

} // verus!
